//! The board engine: two parallel grids (truth content and player
//! visibility) stored row-major, bounds-checked neighbor queries, randomized
//! mine placement with first-click safety, the iterative flood-fill reveal,
//! flag bookkeeping, and win/loss evaluation.

use vstd::prelude::*;

use crate::counting::count_flagged;
use crate::counting::count_hidden;
use crate::counting::count_mines;
use crate::counting::lemma_count_flagged_bounds;
use crate::counting::lemma_count_flagged_update;
use crate::counting::lemma_count_flagged_zero;
use crate::counting::lemma_count_hidden_bounds;
use crate::counting::lemma_count_hidden_update;
use crate::counting::lemma_count_mines_bounds;
use crate::counting::lemma_count_mines_pos;
use crate::counting::lemma_count_mines_take_step;
use crate::counting::lemma_count_mines_update;
use crate::counting::lemma_count_mines_zero;
use crate::rng::random_below;
use crate::types::CellContent;
use crate::types::CellView;
use crate::types::ClickOutcome;
use crate::types::FlagOutcome;
use crate::types::GameError;
use crate::types::GameStatus;
use crate::types::Visibility;

verus! {

/// One where the condition holds, zero where it does not; the summand of the
/// adjacency count.
pub open spec fn b2i(b: bool) -> int {
    if b {
        1int
    } else {
        0int
    }
}

/// A cell's index is below `w * h` whenever its coordinates are.
proof fn lemma_row_major_bounds(x: int, y: int, w: int, h: int)
    by (nonlinear_arith)
    requires
        0 <= x < w,
        0 <= y < h,
    ensures
        0 <= y * w + x < w * h,
{
}

/// Distinct coordinate pairs of one row-major grid have distinct indices.
proof fn lemma_row_major_injective(x1: int, y1: int, x2: int, y2: int, w: int)
    by (nonlinear_arith)
    requires
        0 <= x1 < w,
        0 <= x2 < w,
        0 <= y1,
        0 <= y2,
        y1 * w + x1 == y2 * w + x2,
    ensures
        x1 == x2,
        y1 == y2,
{
}

/// Multiplication does not mind the order of its factors.
proof fn lemma_mul_comm(a: int, b: int)
    by (nonlinear_arith)
    ensures
        a * b == b * a,
{
}

/// The product of two nonnegative factors grows with each factor.
proof fn lemma_mul_le(a: int, b: int, c: int, d: int)
    by (nonlinear_arith)
    requires
        0 <= a <= c,
        0 <= b <= d,
    ensures
        a * b <= c * d,
{
}

/// Whether `(c, d)` lies in the nine-cell closed neighborhood of `(x, y)`:
/// the cell itself or one of its eight surroundings.
pub open spec fn in_nbhd9(c: int, d: int, x: int, y: int) -> bool {
    x - 1 <= c <= x + 1 && y - 1 <= d <= y + 1
}

/// Whether `(c, d)` is one of the four orthogonal neighbors of `(x, y)` —
/// the cells a flood-fill cascade propagates through.
pub open spec fn is_orth_neighbor(c: int, d: int, x: int, y: int) -> bool {
    (c == x && (d == y - 1 || d == y + 1)) || (d == y && (c == x - 1 || c == x + 1))
}

/// Whether the worklist `s` holds the coordinate pair `(c, d)`.
pub open spec fn stack_contains(s: Seq<(u8, u8)>, c: int, d: int) -> bool {
    exists|k: int| 0 <= k < s.len() && (#[trigger] s[k]).0 as int == c && s[k].1 as int == d
}

/// A pair other than the last entry survives popping the last entry.
proof fn lemma_stack_contains_after_pop(s: Seq<(u8, u8)>, c: int, d: int)
    requires
        s.len() > 0,
        stack_contains(s, c, d),
        !(s[s.len() - 1].0 as int == c && s[s.len() - 1].1 as int == d),
    ensures
        stack_contains(s.subrange(0, s.len() - 1), c, d),
{
    let k = choose|k: int| 0 <= k < s.len() && (#[trigger] s[k]).0 as int == c && s[k].1 as int == d;
    assert(k < s.len() - 1);
    assert(s.subrange(0, s.len() - 1)[k] == s[k]);
}

/// A pair of a worklist is still there after entries were appended.
proof fn lemma_stack_contains_extend(s: Seq<(u8, u8)>, t: Seq<(u8, u8)>, c: int, d: int)
    requires
        stack_contains(s, c, d),
        s.len() <= t.len(),
        forall|k: int| 0 <= k < s.len() ==> t[k] == s[k],
    ensures
        stack_contains(t, c, d),
{
    let k = choose|k: int| 0 <= k < s.len() && (#[trigger] s[k]).0 as int == c && s[k].1 as int == d;
    assert(t[k] == s[k]);
}

/// The visibility grids of `pre` and `post` differ at most by hidden
/// mine-free cells having become revealed.
pub open spec fn reveals_only(pre: Board, post: Board) -> bool {
    &&& post.visibility@.len() == pre.visibility@.len()
    &&& forall|i: int|
        0 <= i < pre.visibility@.len() ==> (#[trigger] post.visibility@[i]) == pre.visibility@[i]
            || (pre.visibility@[i] == Visibility::Hidden && post.visibility@[i]
                == Visibility::Revealed && pre.content@[i] == CellContent::Empty)
}

/// The visibility grids of `pre` and `post` differ at most by hidden cells
/// having become revealed: no flag is touched and nothing is hidden again.
pub open spec fn monotone_reveals(pre: Board, post: Board) -> bool {
    &&& post.visibility@.len() == pre.visibility@.len()
    &&& forall|i: int|
        0 <= i < pre.visibility@.len() ==> (#[trigger] post.visibility@[i]) == pre.visibility@[i]
            || (pre.visibility@[i] == Visibility::Hidden && post.visibility@[i]
                == Visibility::Revealed)
}

/// The cascade that started at `(x, y)` left no work undone: every cell it
/// revealed whose adjacency count is zero has no hidden mine-free orthogonal
/// neighbor left.
pub open spec fn cascade_complete_from(pre: Board, post: Board, x: int, y: int) -> bool {
    forall|a: int, b: int|
        (#[trigger] post.revealed_zero(a, b)) && (pre.vis_at(a, b) == Visibility::Hidden || (a == x
            && b == y)) ==> !post.hidden_empty(a, b - 1) && !post.hidden_empty(a, b + 1)
            && !post.hidden_empty(a - 1, b) && !post.hidden_empty(a + 1, b)
}

/// The cascade that started at `(x, y)` touched nothing beyond its reach:
/// every cell it revealed other than the starting one has an orthogonal
/// neighbor that is a revealed mine-free cell of adjacency count zero — the
/// cell it was revealed from.
pub open spec fn cascade_justified(pre: Board, post: Board, x: int, y: int) -> bool {
    forall|a: int, b: int|
        pre.in_bounds(a, b) && (#[trigger] pre.vis_at(a, b)) == Visibility::Hidden && post.vis_at(
            a,
            b,
        ) == Visibility::Revealed && !(a == x && b == y) ==> post.revealed_zero(a, b - 1)
            || post.revealed_zero(a, b + 1) || post.revealed_zero(a - 1, b) || post.revealed_zero(
            a + 1,
            b,
        )
}

/// A revealed zero-adjacency mine-free cell stays one when further cells
/// are revealed and nothing else changes.
proof fn lemma_revealed_zero_preserved(s0: Board, s1: Board, c: int, d: int)
    requires
        s1.width == s0.width,
        s1.height == s0.height,
        s1.content@ == s0.content@,
        s0.visibility@.len() == s0.area(),
        s1.visibility@.len() == s0.visibility@.len(),
        forall|j: int|
            0 <= j < s0.visibility@.len() && (#[trigger] s0.visibility@[j]) == Visibility::Revealed
                ==> s1.visibility@[j] == Visibility::Revealed,
        s0.revealed_zero(c, d),
    ensures
        s1.revealed_zero(c, d),
{
    s0.lemma_idx_bounds(c, d);
}

/// One iteration of the cascade worklist loop keeps a neighbor of a
/// revealed zero-adjacency cell accounted for: either it is no longer
/// hidden, or it is still on the worklist after the pop (and any pushes).
proof fn lemma_frontier_step(
    s0: Board,
    s1: Board,
    t0: Seq<(u8, u8)>,
    t1: Seq<(u8, u8)>,
    px: int,
    py: int,
    na: int,
    nb: int,
)
    requires
        s1.width == s0.width,
        s1.height == s0.height,
        s1.content@ == s0.content@,
        s1.visibility@.len() == s0.visibility@.len(),
        s0.visibility@.len() == s0.area(),
        t0.len() > 0,
        t0[t0.len() - 1].0 as int == px,
        t0[t0.len() - 1].1 as int == py,
        s0.in_bounds(px, py),
        t1.len() >= t0.len() - 1,
        forall|k: int| 0 <= k < t0.len() - 1 ==> t1[k] == t0[k],
        !s1.hidden_empty(px, py),
        forall|i: int|
            0 <= i < s0.visibility@.len() && i != s0.idx(px, py) ==> s1.visibility@[i]
                == s0.visibility@[i],
        !s0.hidden_empty(na, nb) || stack_contains(t0, na, nb),
    ensures
        !s1.hidden_empty(na, nb) || stack_contains(t1, na, nb),
{
    if s1.hidden_empty(na, nb) {
        // still hidden, so it cannot be the popped cell
        assert(!(na == px && nb == py));
        // distinct in-bounds coordinates live at distinct indices
        if s0.idx(na, nb) == s0.idx(px, py) {
            s0.lemma_idx_injective(na, nb, px, py);
            assert(false);
        }
        s0.lemma_idx_bounds(na, nb);
        assert(s0.hidden_empty(na, nb));
        lemma_stack_contains_after_pop(t0, na, nb);
        lemma_stack_contains_extend(t0.subrange(0, t0.len() - 1), t1, na, nb);
    }
}

/// The transition of a successful flag command on a hidden in-bounds cell
/// while the game is running: the one cell becomes flagged, the
/// remaining-flag counter drops by one, and the win condition is evaluated.
pub open spec fn flag_sets(pre: Board, post: Board, x: int, y: int) -> bool {
    &&& post.content@ == pre.content@
    &&& post.visibility@ == pre.visibility@.update(pre.idx(x, y), Visibility::Flagged)
    &&& post.width == pre.width
    &&& post.height == pre.height
    &&& post.mines == pre.mines
    &&& post.remaining_flags == pre.remaining_flags - 1
    &&& post.status == (if post.flags_match_mines() {
        GameStatus::Won
    } else {
        GameStatus::Playing
    })
}

/// The transition of a successful unflag command on a flagged in-bounds cell
/// while the game is running: the one cell becomes hidden again, the
/// remaining-flag counter rises by one, and the win condition is evaluated.
pub open spec fn flag_clears(pre: Board, post: Board, x: int, y: int) -> bool {
    &&& post.content@ == pre.content@
    &&& post.visibility@ == pre.visibility@.update(pre.idx(x, y), Visibility::Hidden)
    &&& post.width == pre.width
    &&& post.height == pre.height
    &&& post.mines == pre.mines
    &&& post.remaining_flags == pre.remaining_flags + 1
    &&& post.status == (if post.flags_match_mines() {
        GameStatus::Won
    } else {
        GameStatus::Playing
    })
}

/// The minesweeper board: the truth grid and the visibility grid, stored
/// row-major (`y * width + x`), with the configured mine count, the
/// remaining-flag display counter, and the game status.
pub struct Board {
    pub content: Vec<CellContent>,
    pub visibility: Vec<Visibility>,
    pub width: u8,
    pub height: u8,
    pub mines: u32,
    pub remaining_flags: i32,
    pub status: GameStatus,
}

impl Board {
    /// The number of cells of the board.
    pub open spec fn area(self) -> int {
        self.width as int * self.height as int
    }

    /// Whether `(x, y)` lies on the board.
    pub open spec fn in_bounds(self, x: int, y: int) -> bool {
        0 <= x < self.width as int && 0 <= y < self.height as int
    }

    /// The row-major index of `(x, y)`.
    pub open spec fn idx(self, x: int, y: int) -> int {
        y * (self.width as int) + x
    }

    /// The truth content of the in-bounds cell `(x, y)`.
    pub open spec fn content_at(self, x: int, y: int) -> CellContent {
        self.content@[self.idx(x, y)]
    }

    /// The visibility of the in-bounds cell `(x, y)`.
    pub open spec fn vis_at(self, x: int, y: int) -> Visibility {
        self.visibility@[self.idx(x, y)]
    }

    /// Whether `(x, y)` is an in-bounds cell holding a mine.
    pub open spec fn mine_at(self, x: int, y: int) -> bool {
        self.in_bounds(x, y) && self.content_at(x, y) == CellContent::Mine
    }

    /// The truth content of `(x, y)`, with `Empty` as the neutral default for
    /// coordinates outside the board.
    pub open spec fn neighbor_content(self, x: int, y: int) -> CellContent {
        if self.in_bounds(x, y) {
            self.content_at(x, y)
        } else {
            CellContent::Empty
        }
    }

    /// The number of mines among the eight cells surrounding `(x, y)`;
    /// out-of-bounds neighbors contribute zero.
    pub open spec fn adjacency(self, x: int, y: int) -> int {
        b2i(self.mine_at(x - 1, y - 1)) + b2i(self.mine_at(x, y - 1)) + b2i(
            self.mine_at(x + 1, y - 1),
        ) + b2i(self.mine_at(x - 1, y)) + b2i(self.mine_at(x + 1, y)) + b2i(
            self.mine_at(x - 1, y + 1),
        ) + b2i(self.mine_at(x, y + 1)) + b2i(self.mine_at(x + 1, y + 1))
    }

    /// How many of the nine cells of the closed neighborhood of `(x, y)`
    /// (the cell itself and its eight surroundings) lie on the board.
    pub open spec fn nbhd9_size(self, x: int, y: int) -> int {
        b2i(self.in_bounds(x - 1, y - 1)) + b2i(self.in_bounds(x, y - 1)) + b2i(
            self.in_bounds(x + 1, y - 1),
        ) + b2i(self.in_bounds(x - 1, y)) + b2i(self.in_bounds(x, y)) + b2i(
            self.in_bounds(x + 1, y),
        ) + b2i(self.in_bounds(x - 1, y + 1)) + b2i(self.in_bounds(x, y + 1)) + b2i(
            self.in_bounds(x + 1, y + 1),
        )
    }

    /// One when the in-bounds cell `(c, d)` has a row-major index below `i`
    /// (it was already passed by a row-major scan), zero otherwise.
    pub open spec fn seen1(self, c: int, d: int, i: int) -> int {
        b2i(self.in_bounds(c, d) && self.idx(c, d) < i)
    }

    /// How many cells of the nine-cell closed neighborhood of `(x, y)` a
    /// row-major scan has passed before index `i`.
    pub open spec fn nbhd_seen(self, x: int, y: int, i: int) -> int {
        self.seen1(x - 1, y - 1, i) + self.seen1(x, y - 1, i) + self.seen1(x + 1, y - 1, i)
            + self.seen1(x - 1, y, i) + self.seen1(x, y, i) + self.seen1(x + 1, y, i) + self.seen1(
            x - 1,
            y + 1,
            i,
        ) + self.seen1(x, y + 1, i) + self.seen1(x + 1, y + 1, i)
    }

    /// Passing the cell `(cx, cy)` raises `seen1` of `(c, d)` exactly when
    /// the two are the same cell.
    proof fn lemma_seen1_step(self, c: int, d: int, cx: int, cy: int, i: int)
        requires
            self.in_bounds(cx, cy),
            i == self.idx(cx, cy),
        ensures
            self.seen1(c, d, i + 1) == self.seen1(c, d, i) + b2i(c == cx && d == cy),
    {
        if self.in_bounds(c, d) {
            if self.idx(c, d) == i {
                self.lemma_idx_injective(c, d, cx, cy);
            }
        }
    }

    /// Passing the cell `(cx, cy)` raises the neighborhood scan count
    /// exactly when `(cx, cy)` lies in the neighborhood of `(x, y)`.
    proof fn lemma_nbhd_seen_step(self, x: int, y: int, cx: int, cy: int, i: int)
        requires
            self.in_bounds(cx, cy),
            i == self.idx(cx, cy),
        ensures
            self.nbhd_seen(x, y, i + 1) == self.nbhd_seen(x, y, i) + b2i(in_nbhd9(cx, cy, x, y)),
    {
        self.lemma_seen1_step(x - 1, y - 1, cx, cy, i);
        self.lemma_seen1_step(x, y - 1, cx, cy, i);
        self.lemma_seen1_step(x + 1, y - 1, cx, cy, i);
        self.lemma_seen1_step(x - 1, y, cx, cy, i);
        self.lemma_seen1_step(x, y, cx, cy, i);
        self.lemma_seen1_step(x + 1, y, cx, cy, i);
        self.lemma_seen1_step(x - 1, y + 1, cx, cy, i);
        self.lemma_seen1_step(x, y + 1, cx, cy, i);
        self.lemma_seen1_step(x + 1, y + 1, cx, cy, i);
    }

    /// An in-bounds cell that is still hidden and holds no mine: what a
    /// cascade may still reveal.
    pub open spec fn hidden_empty(self, x: int, y: int) -> bool {
        self.in_bounds(x, y) && self.content_at(x, y) == CellContent::Empty && self.vis_at(x, y)
            == Visibility::Hidden
    }

    /// An in-bounds revealed mine-free cell with adjacency count zero: a cell
    /// from which a cascade propagates.
    pub open spec fn revealed_zero(self, x: int, y: int) -> bool {
        self.in_bounds(x, y) && self.content_at(x, y) == CellContent::Empty && self.vis_at(x, y)
            == Visibility::Revealed && self.adjacency(x, y) == 0
    }

    /// The win condition: the flagged cells are exactly the mine cells — no
    /// unflagged mine remains and no flagged non-mine remains.
    pub open spec fn flags_match_mines(self) -> bool {
        forall|i: int|
            0 <= i < self.area() ==> ((#[trigger] self.visibility@[i] == Visibility::Flagged) <==> (
            self.content@[i] == CellContent::Mine))
    }

    /// Well-formedness: positive dimensions, both grids of exactly
    /// `width * height` cells, the mine counter equal to the number of mines
    /// on the truth grid, and the remaining-flag counter equal to that number
    /// minus the number of flagged cells.
    pub open spec fn wf(self) -> bool {
        &&& self.width >= 1
        &&& self.height >= 1
        &&& self.content@.len() == self.area()
        &&& self.visibility@.len() == self.area()
        &&& self.mines as int == count_mines(self.content@)
        &&& self.remaining_flags as int == self.mines as int - count_flagged(self.visibility@)
    }

    /// The two grids and the scalar state other than the status agree between
    /// `self` and `other`.
    pub open spec fn same_but_status(self, other: Board) -> bool {
        &&& self.content@ == other.content@
        &&& self.visibility@ == other.visibility@
        &&& self.width == other.width
        &&& self.height == other.height
        &&& self.mines == other.mines
        &&& self.remaining_flags == other.remaining_flags
    }

    /// Nothing at all differs between `self` and `other`.
    pub open spec fn unchanged(self, other: Board) -> bool {
        self.same_but_status(other) && self.status == other.status
    }

    /// The row-major index of an in-bounds cell lies within the grids.
    pub proof fn lemma_idx_bounds(self, x: int, y: int)
        requires
            self.in_bounds(x, y),
        ensures
            0 <= self.idx(x, y) < self.area(),
    {
        lemma_row_major_bounds(x, y, self.width as int, self.height as int);
    }

    /// Distinct in-bounds cells live at distinct row-major indices.
    pub proof fn lemma_idx_injective(self, x1: int, y1: int, x2: int, y2: int)
        requires
            self.in_bounds(x1, y1),
            self.in_bounds(x2, y2),
            self.idx(x1, y1) == self.idx(x2, y2),
        ensures
            x1 == x2,
            y1 == y2,
    {
        lemma_row_major_injective(x1, y1, x2, y2, self.width as int);
    }

    /// A fresh board: all cells `Empty` and `Hidden`, no mines configured,
    /// status `Playing`.
    pub fn new(width: u8, height: u8) -> (b: Board)
        requires
            width >= 1,
            height >= 1,
        ensures
            b.wf(),
            b.width == width,
            b.height == height,
            b.mines == 0,
            b.remaining_flags == 0,
            b.status == GameStatus::Playing,
            forall|i: int| 0 <= i < b.area() ==> b.content@[i] == CellContent::Empty,
            forall|i: int| 0 <= i < b.area() ==> b.visibility@[i] == Visibility::Hidden,
    {
        proof {
            lemma_mul_le(width as int, height as int, 255, 255);
        }
        let area: usize = (width as usize) * (height as usize);
        let mut content: Vec<CellContent> = Vec::new();
        let mut visibility: Vec<Visibility> = Vec::new();
        let mut i: usize = 0;
        while i < area
            invariant
                i <= area,
                content@.len() == i,
                visibility@.len() == i,
                forall|j: int| 0 <= j < i ==> content@[j] == CellContent::Empty,
                forall|j: int| 0 <= j < i ==> visibility@[j] == Visibility::Hidden,
            decreases area - i,
        {
            content.push(CellContent::Empty);
            visibility.push(Visibility::Hidden);
            i = i + 1;
        }
        proof {
            lemma_count_mines_zero(content@);
            lemma_count_flagged_zero(visibility@);
        }
        Board {
            content,
            visibility,
            width,
            height,
            mines: 0,
            remaining_flags: 0,
            status: GameStatus::Playing,
        }
    }

    /// Whether `(x, y)` lies on the board.
    pub fn check_bounds(&self, x: isize, y: isize) -> (r: bool)
        ensures
            r == self.in_bounds(x as int, y as int),
    {
        if x < 0 || y < 0 {
            return false;
        }
        (x as usize) < (self.width as usize) && (y as usize) < (self.height as usize)
    }

    /// The row-major index of the in-bounds cell `(x, y)`.
    fn flat_index(&self, x: usize, y: usize) -> (i: usize)
        requires
            self.in_bounds(x as int, y as int),
        ensures
            i == self.idx(x as int, y as int),
            i < self.area(),
    {
        proof {
            self.lemma_idx_bounds(x as int, y as int);
            lemma_mul_le(self.width as int, self.height as int, 255, 255);
        }
        y * (self.width as usize) + x
    }

    /// The truth content of `(x, y)`, `Empty` for coordinates outside the
    /// board (the neutral default that lets adjacency counting and flood
    /// fill run unmodified at the edges).
    pub fn index_board(&self, x: isize, y: isize) -> (c: CellContent)
        requires
            self.wf(),
        ensures
            c == self.neighbor_content(x as int, y as int),
    {
        if !self.check_bounds(x, y) {
            return CellContent::Empty;
        }
        let i = self.flat_index(x as usize, y as usize);
        self.content[i]
    }

    /// The eight surrounding cells of `(x, y)`, each as its coordinates and
    /// its truth content (with the neutral out-of-bounds default).
    pub fn find_neighbors(&self, x: isize, y: isize) -> (r: Vec<(isize, isize, CellContent)>)
        requires
            self.wf(),
            self.in_bounds(x as int, y as int),
        ensures
            r@.len() == 8,
            r@[0].0 == x && r@[0].1 as int == y - 1 && r@[0].2 == self.neighbor_content(
                x as int,
                y as int - 1,
            ),
            r@[1].0 == x && r@[1].1 as int == y + 1 && r@[1].2 == self.neighbor_content(
                x as int,
                y as int + 1,
            ),
            r@[2].0 as int == x - 1 && r@[2].1 == y && r@[2].2 == self.neighbor_content(
                x as int - 1,
                y as int,
            ),
            r@[3].0 as int == x + 1 && r@[3].1 == y && r@[3].2 == self.neighbor_content(
                x as int + 1,
                y as int,
            ),
            r@[4].0 as int == x - 1 && r@[4].1 as int == y - 1 && r@[4].2 == self.neighbor_content(
                x as int - 1,
                y as int - 1,
            ),
            r@[5].0 as int == x - 1 && r@[5].1 as int == y + 1 && r@[5].2 == self.neighbor_content(
                x as int - 1,
                y as int + 1,
            ),
            r@[6].0 as int == x + 1 && r@[6].1 as int == y - 1 && r@[6].2 == self.neighbor_content(
                x as int + 1,
                y as int - 1,
            ),
            r@[7].0 as int == x + 1 && r@[7].1 as int == y + 1 && r@[7].2 == self.neighbor_content(
                x as int + 1,
                y as int + 1,
            ),
    {
        let mut r: Vec<(isize, isize, CellContent)> = Vec::new();
        r.push((x, y - 1, self.index_board(x, y - 1)));
        r.push((x, y + 1, self.index_board(x, y + 1)));
        r.push((x - 1, y, self.index_board(x - 1, y)));
        r.push((x + 1, y, self.index_board(x + 1, y)));
        r.push((x - 1, y - 1, self.index_board(x - 1, y - 1)));
        r.push((x - 1, y + 1, self.index_board(x - 1, y + 1)));
        r.push((x + 1, y - 1, self.index_board(x + 1, y - 1)));
        r.push((x + 1, y + 1, self.index_board(x + 1, y + 1)));
        r
    }

    /// The four orthogonal neighbors of `(x, y)` — the cells a flood-fill
    /// cascade propagates through — each as its coordinates and its truth
    /// content (with the neutral out-of-bounds default).
    pub fn find_neighbors_no_diagonal(&self, x: isize, y: isize) -> (r: Vec<
        (isize, isize, CellContent),
    >)
        requires
            self.wf(),
            self.in_bounds(x as int, y as int),
        ensures
            r@.len() == 4,
            r@[0].0 == x && r@[0].1 as int == y - 1 && r@[0].2 == self.neighbor_content(
                x as int,
                y as int - 1,
            ),
            r@[1].0 == x && r@[1].1 as int == y + 1 && r@[1].2 == self.neighbor_content(
                x as int,
                y as int + 1,
            ),
            r@[2].0 as int == x - 1 && r@[2].1 == y && r@[2].2 == self.neighbor_content(
                x as int - 1,
                y as int,
            ),
            r@[3].0 as int == x + 1 && r@[3].1 == y && r@[3].2 == self.neighbor_content(
                x as int + 1,
                y as int,
            ),
    {
        let mut r: Vec<(isize, isize, CellContent)> = Vec::new();
        r.push((x, y - 1, self.index_board(x, y - 1)));
        r.push((x, y + 1, self.index_board(x, y + 1)));
        r.push((x - 1, y, self.index_board(x - 1, y)));
        r.push((x + 1, y, self.index_board(x + 1, y)));
        r
    }

    /// The adjacency count of `(x, y)`: how many of its eight surrounding
    /// cells hold a mine. Recomputed on demand, never cached.
    pub fn find_close_mines(&self, x: isize, y: isize) -> (r: usize)
        requires
            self.wf(),
            self.in_bounds(x as int, y as int),
        ensures
            r as int == self.adjacency(x as int, y as int),
            r <= 8,
    {
        let mut r: usize = 0;
        if self.index_board(x - 1, y - 1) == CellContent::Mine {
            r = r + 1;
        }
        if self.index_board(x, y - 1) == CellContent::Mine {
            r = r + 1;
        }
        if self.index_board(x + 1, y - 1) == CellContent::Mine {
            r = r + 1;
        }
        if self.index_board(x - 1, y) == CellContent::Mine {
            r = r + 1;
        }
        if self.index_board(x + 1, y) == CellContent::Mine {
            r = r + 1;
        }
        if self.index_board(x - 1, y + 1) == CellContent::Mine {
            r = r + 1;
        }
        if self.index_board(x, y + 1) == CellContent::Mine {
            r = r + 1;
        }
        if self.index_board(x + 1, y + 1) == CellContent::Mine {
            r = r + 1;
        }
        r
    }

    /// The exact number of mines on the truth grid, counted by a full scan.
    pub fn total_mines(&self) -> (r: usize)
        requires
            self.wf(),
        ensures
            r as int == count_mines(self.content@),
            r as int == self.mines as int,
    {
        let n = self.content.len();
        let mut i: usize = 0;
        let mut r: usize = 0;
        while i < n
            invariant
                i <= n,
                n == self.content@.len(),
                r as int == count_mines(self.content@.take(i as int)),
                r <= i,
            decreases n - i,
        {
            proof {
                lemma_count_mines_take_step(self.content@, i as int);
            }
            if self.content[i] == CellContent::Mine {
                r = r + 1;
            }
            i = i + 1;
        }
        proof {
            assert(self.content@.take(n as int) =~= self.content@);
        }
        r
    }

    /// Puts a mine on the empty in-bounds cell `(x, y)` and adjusts the mine
    /// and remaining-flag counters: the deterministic placer for scripted
    /// boards.
    pub fn place_mine_at(&mut self, x: u8, y: u8)
        requires
            old(self).wf(),
            old(self).status == GameStatus::Playing,
            old(self).in_bounds(x as int, y as int),
            old(self).content_at(x as int, y as int) == CellContent::Empty,
        ensures
            final(self).wf(),
            final(self).content@ == old(self).content@.update(
                old(self).idx(x as int, y as int),
                CellContent::Mine,
            ),
            final(self).visibility@ == old(self).visibility@,
            final(self).width == old(self).width,
            final(self).height == old(self).height,
            final(self).status == old(self).status,
            final(self).mines == old(self).mines + 1,
            final(self).remaining_flags == old(self).remaining_flags + 1,
    {
        let i = self.flat_index(x as usize, y as usize);
        proof {
            lemma_count_mines_update(self.content@, i as int, CellContent::Mine);
            lemma_count_mines_bounds(self.content@);
            lemma_count_flagged_bounds(self.visibility@);
            lemma_mul_le(self.width as int, self.height as int, 255, 255);
        }
        self.content[i] = CellContent::Mine;
        self.mines = self.mines + 1;
        self.remaining_flags = self.remaining_flags + 1;
    }

    /// Places exactly `amount` mines on distinct cells, then configures the
    /// mine and remaining-flag counters. Each mine lands on a cell drawn
    /// uniformly from those not yet holding one — the distribution that
    /// resampling the full board until a free cell comes up would give, but
    /// with a provable bound on the work. Run once on a fresh board. A mine
    /// count above `area - 9` could make first-click relocation impossible
    /// and is rejected here, at configuration time.
    #[verifier::loop_isolation(false)]
    pub fn place_mines(&mut self, amount: u32)
        requires
            old(self).wf(),
            old(self).status == GameStatus::Playing,
            count_mines(old(self).content@) == 0,
            forall|i: int|
                0 <= i < old(self).area() ==> old(self).visibility@[i] == Visibility::Hidden,
            amount == 0 || amount as int + 9 <= old(self).area(),
        ensures
            final(self).wf(),
            count_mines(final(self).content@) == amount as int,
            final(self).mines == amount,
            final(self).remaining_flags == amount as i32,
            final(self).visibility@ == old(self).visibility@,
            final(self).width == old(self).width,
            final(self).height == old(self).height,
            final(self).status == old(self).status,
    {
        proof {
            lemma_mul_le(self.width as int, self.height as int, 255, 255);
        }
        let mut placed: usize = 0;
        while placed < amount as usize
            invariant
                self.width == old(self).width,
                self.height == old(self).height,
                self.visibility@ == old(self).visibility@,
                self.status == old(self).status,
                self.mines == old(self).mines,
                self.remaining_flags == old(self).remaining_flags,
                self.content@.len() == self.area(),
                placed as int == count_mines(self.content@),
                placed as int <= amount as int,
            decreases amount as int - placed as int,
        {
            let free = self.free_cells();
            let k = random_below(free.len() as u32);
            let i = free[k as usize];
            proof {
                lemma_count_mines_update(self.content@, i as int, CellContent::Mine);
            }
            self.content[i] = CellContent::Mine;
            placed = placed + 1;
        }
        proof {
            lemma_count_flagged_zero(self.visibility@);
        }
        self.mines = amount;
        self.remaining_flags = amount as i32;
    }

    /// Every mine-free cell of the truth grid, as row-major indices: the
    /// pool a uniformly random placement target is drawn from.
    fn free_cells(&self) -> (v: Vec<usize>)
        ensures
            v@.len() == self.content@.len() - count_mines(self.content@),
            forall|k: int|
                0 <= k < v@.len() ==> (#[trigger] v@[k]) < self.content@.len()
                    && self.content@[v@[k] as int] != CellContent::Mine,
    {
        let n = self.content.len();
        let mut v: Vec<usize> = Vec::new();
        let mut i: usize = 0;
        while i < n
            invariant
                i <= n,
                n == self.content@.len(),
                v@.len() as int == i - count_mines(self.content@.take(i as int)),
                forall|k: int|
                    0 <= k < v@.len() ==> (#[trigger] v@[k]) < n && self.content@[v@[k] as int]
                        != CellContent::Mine,
            decreases n - i,
        {
            proof {
                lemma_count_mines_take_step(self.content@, i as int);
                lemma_count_mines_bounds(self.content@.take(i as int));
            }
            if !(self.content[i] == CellContent::Mine) {
                v.push(i);
            }
            i = i + 1;
        }
        proof {
            assert(self.content@.take(n as int) =~= self.content@);
        }
        v
    }

    /// A uniformly random mine-free cell outside the nine-cell neighborhood
    /// of `(x, y)`: the relocation target for the mine on `(sx, sy)`. Such a
    /// cell exists because the mine count leaves at least the neighborhood's
    /// worth of cells empty, and one of the mines sits inside it.
    #[verifier::loop_isolation(false)]
    fn find_spare_cell(&self, x: u8, y: u8, sx: u8, sy: u8) -> (r: (u8, u8))
        requires
            self.wf(),
            self.in_bounds(x as int, y as int),
            self.in_bounds(sx as int, sy as int),
            in_nbhd9(sx as int, sy as int, x as int, y as int),
            self.content_at(sx as int, sy as int) == CellContent::Mine,
            self.mines as int + self.nbhd9_size(x as int, y as int) <= self.area(),
        ensures
            self.in_bounds(r.0 as int, r.1 as int),
            !in_nbhd9(r.0 as int, r.1 as int, x as int, y as int),
            self.content_at(r.0 as int, r.1 as int) == CellContent::Empty,
    {
        proof {
            lemma_mul_le(self.width as int, self.height as int, 255, 255);
            self.lemma_idx_bounds(sx as int, sy as int);
        }
        let n = self.content.len();
        let mut valids: Vec<(u8, u8)> = Vec::new();
        let mut cx: u8 = 0;
        let mut cy: u8 = 0;
        let mut i: usize = 0;
        while i < n
            invariant
                i <= n,
                valids@.len() <= i,
                (cx as int) < self.width as int,
                (cy as int) <= self.height as int,
                i as int == self.idx(cx as int, cy as int),
                i == n ==> cy as int == self.height as int,
                valids@.len() as int >= i as int - self.nbhd_seen(x as int, y as int, i as int)
                    - count_mines(self.content@.take(i as int)) + b2i(
                    self.idx(sx as int, sy as int) < i as int,
                ),
                forall|k: int|
                    0 <= k < valids@.len() ==> self.in_bounds(
                        (#[trigger] valids@[k]).0 as int,
                        valids@[k].1 as int,
                    ) && !in_nbhd9(
                        valids@[k].0 as int,
                        valids@[k].1 as int,
                        x as int,
                        y as int,
                    ) && self.content_at(valids@[k].0 as int, valids@[k].1 as int)
                        == CellContent::Empty,
            decreases n - i,
        {
            proof {
                if cy as int == self.height as int {
                    lemma_mul_comm(self.height as int, self.width as int);
                    assert(false);
                }
                lemma_count_mines_take_step(self.content@, i as int);
                self.lemma_nbhd_seen_step(x as int, y as int, cx as int, cy as int, i as int);
                if self.idx(sx as int, sy as int) == i as int {
                    self.lemma_idx_injective(sx as int, sy as int, cx as int, cy as int);
                }
            }
            let inn = (cx as isize) + 1 >= (x as isize) && (cx as isize) <= (x as isize) + 1 && (
            cy as isize) + 1 >= (y as isize) && (cy as isize) <= (y as isize) + 1;
            let c = self.content[i];
            if !inn && !(c == CellContent::Mine) {
                valids.push((cx, cy));
            }
            i = i + 1;
            if cx + 1 < self.width {
                proof {
                    lemma_row_major_bounds(
                        cx as int + 1,
                        cy as int,
                        self.width as int,
                        self.height as int,
                    );
                }
                cx = cx + 1;
            } else {
                proof {
                    assert((cy as int + 1) * (self.width as int) == cy as int * (self.width as int)
                        + self.width as int) by (nonlinear_arith);
                    if i == n {
                        lemma_mul_comm(self.height as int, self.width as int);
                        lemma_row_major_injective(
                            0,
                            cy as int + 1,
                            0,
                            self.height as int,
                            self.width as int,
                        );
                    }
                }
                cx = 0;
                cy = cy + 1;
            }
        }
        proof {
            assert(self.content@.take(n as int) =~= self.content@);
        }
        let k = random_below(valids.len() as u32);
        let t = valids[k as usize];
        t
    }

    /// If `(sx, sy)` holds a mine, moves that mine to a uniformly random
    /// mine-free cell outside the nine-cell neighborhood of `(x, y)` and
    /// clears the source. Mines are moved, never created or destroyed, and
    /// no cell of the neighborhood other than the source changes.
    fn move_mine_out(&mut self, x: u8, y: u8, sx: isize, sy: isize)
        requires
            old(self).wf(),
            old(self).in_bounds(x as int, y as int),
            in_nbhd9(sx as int, sy as int, x as int, y as int),
            old(self).mines == 0 || old(self).mines as int + old(self).nbhd9_size(
                x as int,
                y as int,
            ) <= old(self).area(),
        ensures
            final(self).wf(),
            count_mines(final(self).content@) == count_mines(old(self).content@),
            final(self).visibility@ == old(self).visibility@,
            final(self).width == old(self).width,
            final(self).height == old(self).height,
            final(self).mines == old(self).mines,
            final(self).remaining_flags == old(self).remaining_flags,
            final(self).status == old(self).status,
            final(self).neighbor_content(sx as int, sy as int) == CellContent::Empty,
            forall|c: int, d: int|
                in_nbhd9(c, d, x as int, y as int) && !(c == sx as int && d == sy as int)
                    ==> final(self).neighbor_content(c, d) == old(self).neighbor_content(c, d),
    {
        if !self.check_bounds(sx, sy) {
            return ;
        }
        let i = self.flat_index(sx as usize, sy as usize);
        if !(self.content[i] == CellContent::Mine) {
            return ;
        }
        proof {
            lemma_count_mines_pos(self.content@, i as int);
        }
        let t = self.find_spare_cell(x, y, sx as u8, sy as u8);
        let j = self.flat_index(t.0 as usize, t.1 as usize);
        proof {
            if i == j {
                self.lemma_idx_injective(sx as int, sy as int, t.0 as int, t.1 as int);
                assert(false);
            }
            lemma_count_mines_update(self.content@, j as int, CellContent::Mine);
            lemma_count_mines_update(
                self.content@.update(j as int, CellContent::Mine),
                i as int,
                CellContent::Empty,
            );
        }
        self.content[j] = CellContent::Mine;
        self.content[i] = CellContent::Empty;
        proof {
            let pre = *old(self);
            assert forall|c: int, d: int|
                in_nbhd9(c, d, x as int, y as int) && !(c == sx as int && d == sy as int) implies
                self.neighbor_content(c, d) == pre.neighbor_content(c, d) by {
                if pre.in_bounds(c, d) {
                    pre.lemma_idx_bounds(c, d);
                    if pre.idx(c, d) == pre.idx(sx as int, sy as int) {
                        pre.lemma_idx_injective(c, d, sx as int, sy as int);
                        assert(false);
                    }
                    if pre.idx(c, d) == pre.idx(t.0 as int, t.1 as int) {
                        pre.lemma_idx_injective(c, d, t.0 as int, t.1 as int);
                        assert(false);
                    }
                }
            }
        }
    }

    /// First-click safety: scans the nine-cell closed neighborhood of
    /// `(x, y)` and relocates every mine found there to a randomly chosen
    /// mine-free cell outside the neighborhood, so that afterwards neither
    /// `(x, y)` nor any of its eight neighbors holds a mine. The total mine
    /// count is preserved throughout. The caller keeps enough mine-free
    /// cells outside the neighborhood for the relocation to succeed (see
    /// `place_mines`, which rejects overfull configurations).
    #[verifier::rlimit(60)]
    pub fn move_all_mines_neighboring(&mut self, x: u8, y: u8)
        requires
            old(self).wf(),
            old(self).in_bounds(x as int, y as int),
            old(self).mines == 0 || old(self).mines as int + old(self).nbhd9_size(
                x as int,
                y as int,
            ) <= old(self).area(),
        ensures
            final(self).wf(),
            count_mines(final(self).content@) == count_mines(old(self).content@),
            final(self).visibility@ == old(self).visibility@,
            final(self).width == old(self).width,
            final(self).height == old(self).height,
            final(self).mines == old(self).mines,
            final(self).remaining_flags == old(self).remaining_flags,
            final(self).status == old(self).status,
            final(self).content_at(x as int, y as int) == CellContent::Empty,
            final(self).adjacency(x as int, y as int) == 0,
    {
        self.move_mine_out(x, y, (x as isize) - 1, (y as isize) - 1);
        self.move_mine_out(x, y, x as isize, (y as isize) - 1);
        self.move_mine_out(x, y, (x as isize) + 1, (y as isize) - 1);
        self.move_mine_out(x, y, (x as isize) - 1, y as isize);
        self.move_mine_out(x, y, x as isize, y as isize);
        self.move_mine_out(x, y, (x as isize) + 1, y as isize);
        self.move_mine_out(x, y, (x as isize) - 1, (y as isize) + 1);
        self.move_mine_out(x, y, x as isize, (y as isize) + 1);
        self.move_mine_out(x, y, (x as isize) + 1, (y as isize) + 1);
    }

    /// The first click of a game: relocates every mine out of the nine-cell
    /// neighborhood of `(x, y)`, then performs the click. The clicked cell
    /// ends mine-free with adjacency count zero, the total mine count is
    /// unchanged, and a hidden target cell is revealed with a full cascade.
    pub fn first_click(&mut self, x: u8, y: u8) -> (r: Result<ClickOutcome, GameError>)
        requires
            old(self).wf(),
            old(self).status == GameStatus::Playing,
            old(self).in_bounds(x as int, y as int) ==> (old(self).mines == 0 || old(self).mines as int + old(self).nbhd9_size(x as int, y as int) <= old(self).area()),
        ensures
            final(self).wf(),
            final(self).width == old(self).width,
            final(self).height == old(self).height,
            final(self).mines == old(self).mines,
            final(self).remaining_flags == old(self).remaining_flags,
            count_mines(final(self).content@) == count_mines(old(self).content@),
            monotone_reveals(*old(self), *final(self)),
            !old(self).in_bounds(x as int, y as int) ==> r == Err::<ClickOutcome, GameError>(
                GameError::OutOfBounds,
            ) && final(self).unchanged(*old(self)),
            old(self).in_bounds(x as int, y as int) ==> final(self).content_at(x as int, y as int)
                == CellContent::Empty && final(self).adjacency(x as int, y as int) == 0,
            old(self).in_bounds(x as int, y as int) && old(self).vis_at(x as int, y as int)
                != Visibility::Hidden ==> r == Err::<ClickOutcome, GameError>(GameError::Blocked)
                && final(self).visibility@ == old(self).visibility@ && final(self).status == old(self).status,
            old(self).in_bounds(x as int, y as int) && old(self).vis_at(x as int, y as int)
                == Visibility::Hidden ==> r == Ok::<ClickOutcome, GameError>(ClickOutcome::Opened(0))
                && final(self).vis_at(x as int, y as int) == Visibility::Revealed && final(self).status == (if final(self).flags_match_mines() {
                GameStatus::Won
            } else {
                GameStatus::Playing
            }) && cascade_complete_from(*old(self), *final(self), x as int, y as int)
                && cascade_justified(*old(self), *final(self), x as int, y as int),
    {
        if !self.check_bounds(x as isize, y as isize) {
            return Err(GameError::OutOfBounds);
        }
        self.move_all_mines_neighboring(x, y);
        let ghost m = *self;
        let r = self.click(x, y);
        proof {
            // the relocation left the visibility grid alone, so what the
            // click's cascade says of the intermediate state holds of the
            // starting state too
            assert forall|a: int, b: int|
                old(self).in_bounds(a, b) && (#[trigger] old(self).vis_at(a, b))
                    == Visibility::Hidden && self.vis_at(a, b) == Visibility::Revealed && !(a
                    == x as int && b == y as int) implies self.revealed_zero(a, b - 1)
                || self.revealed_zero(a, b + 1) || self.revealed_zero(a - 1, b)
                || self.revealed_zero(a + 1, b) by {
                assert(m.vis_at(a, b) == old(self).vis_at(a, b));
            }
        }
        r
    }

    /// Whether the flagged cells are exactly the mine cells, by a direct
    /// set-equality scan over the two grids — never approximated by the
    /// remaining-flag counter.
    fn check_win(&self) -> (r: bool)
        requires
            self.wf(),
        ensures
            r == self.flags_match_mines(),
    {
        let n = self.content.len();
        let mut i: usize = 0;
        while i < n
            invariant
                i <= n,
                n == self.content@.len(),
                n == self.visibility@.len(),
                n == self.area(),
                forall|j: int|
                    0 <= j < i ==> ((#[trigger] self.visibility@[j]) == Visibility::Flagged <==> self.content@[j]
                        == CellContent::Mine),
            decreases n - i,
        {
            let flagged = self.visibility[i] == Visibility::Flagged;
            let mine = self.content[i] == CellContent::Mine;
            if flagged != mine {
                return false;
            }
            i = i + 1;
        }
        true
    }

    /// The click command. Rejected without mutation after game over, outside
    /// the board, or on a flagged or revealed cell. On a hidden mine it
    /// reveals that cell and loses the game. On a hidden mine-free cell it
    /// reveals the cell — cascading through the flood fill when the
    /// adjacency count is zero — and then evaluates the win condition.
    pub fn click(&mut self, x: u8, y: u8) -> (r: Result<ClickOutcome, GameError>)
        requires
            old(self).wf(),
        ensures
            final(self).wf(),
            final(self).content@ == old(self).content@,
            final(self).width == old(self).width,
            final(self).height == old(self).height,
            final(self).mines == old(self).mines,
            final(self).remaining_flags == old(self).remaining_flags,
            monotone_reveals(*old(self), *final(self)),
            old(self).status == GameStatus::Playing && old(self).in_bounds(x as int, y as int)
                && old(self).vis_at(x as int, y as int) == Visibility::Hidden
                && old(self).content_at(x as int, y as int) == CellContent::Empty
                ==> reveals_only(*old(self), *final(self)),
            old(self).status != GameStatus::Playing ==> r == Err::<ClickOutcome, GameError>(
                GameError::GameOver,
            ) && final(self).unchanged(*old(self)),
            old(self).status == GameStatus::Playing && !old(self).in_bounds(x as int, y as int)
                ==> r == Err::<ClickOutcome, GameError>(GameError::OutOfBounds) && final(self).unchanged(*old(self)),
            old(self).status == GameStatus::Playing && old(self).in_bounds(x as int, y as int)
                && old(self).vis_at(x as int, y as int) != Visibility::Hidden ==> r == Err::<
                ClickOutcome,
                GameError,
            >(GameError::Blocked) && final(self).unchanged(*old(self)),
            old(self).status == GameStatus::Playing && old(self).in_bounds(x as int, y as int)
                && old(self).vis_at(x as int, y as int) == Visibility::Hidden && old(self).content_at(x as int, y as int) == CellContent::Mine ==> r == Ok::<
                ClickOutcome,
                GameError,
            >(ClickOutcome::HitMine) && final(self).status == GameStatus::Lost && final(self).visibility@ == old(self).visibility@.update(
                old(self).idx(x as int, y as int),
                Visibility::Revealed,
            ),
            old(self).status == GameStatus::Playing && old(self).in_bounds(x as int, y as int)
                && old(self).vis_at(x as int, y as int) == Visibility::Hidden && old(self).content_at(x as int, y as int) == CellContent::Empty ==> r == Ok::<
                ClickOutcome,
                GameError,
            >(ClickOutcome::Opened(old(self).adjacency(x as int, y as int) as u8)) && final(self).vis_at(x as int, y as int) == Visibility::Revealed && final(self).status == (if final(self).flags_match_mines() {
                GameStatus::Won
            } else {
                GameStatus::Playing
            }),
            old(self).status == GameStatus::Playing && old(self).in_bounds(x as int, y as int)
                && old(self).vis_at(x as int, y as int) == Visibility::Hidden && old(self).content_at(x as int, y as int) == CellContent::Empty && old(self).adjacency(
                x as int,
                y as int,
            ) > 0 ==> final(self).visibility@ == old(self).visibility@.update(
                old(self).idx(x as int, y as int),
                Visibility::Revealed,
            ),
            old(self).status == GameStatus::Playing && old(self).in_bounds(x as int, y as int)
                && old(self).vis_at(x as int, y as int) == Visibility::Hidden && old(self).content_at(x as int, y as int) == CellContent::Empty && old(self).adjacency(
                x as int,
                y as int,
            ) == 0 ==> cascade_complete_from(*old(self), *final(self), x as int, y as int)
                && cascade_justified(*old(self), *final(self), x as int, y as int),
    {
        match self.status {
            GameStatus::Playing => {},
            _ => {
                return Err(GameError::GameOver);
            },
        }
        if !self.check_bounds(x as isize, y as isize) {
            return Err(GameError::OutOfBounds);
        }
        let i = self.flat_index(x as usize, y as usize);
        match self.visibility[i] {
            Visibility::Hidden => {},
            _ => {
                return Err(GameError::Blocked);
            },
        }
        proof {
            lemma_count_flagged_update(self.visibility@, i as int, Visibility::Revealed);
        }
        let mine = self.content[i] == CellContent::Mine;
        self.visibility[i] = Visibility::Revealed;
        if mine {
            self.status = GameStatus::Lost;
            return Ok(ClickOutcome::HitMine);
        }
        let adj = self.find_close_mines(x as isize, y as isize);
        let ghost mid = *self;
        let ghost mut s2 = *self;
        if adj == 0 {
            self.reveal_empties(x, y);
            proof {
                assert forall|a: int, b: int|
                    (#[trigger] self.revealed_zero(a, b)) && (old(self).vis_at(a, b)
                        == Visibility::Hidden || (a == x as int && b == y as int)) implies (
                !self.hidden_empty(a, b - 1) && !self.hidden_empty(a, b + 1) && !self.hidden_empty(
                    a - 1,
                    b,
                ) && !self.hidden_empty(a + 1, b)) by {
                    if !(a == x as int && b == y as int) {
                        if mid.idx(a, b) == mid.idx(x as int, y as int) {
                            mid.lemma_idx_injective(a, b, x as int, y as int);
                            assert(false);
                        }
                        mid.lemma_idx_bounds(a, b);
                        assert(mid.vis_at(a, b) == Visibility::Hidden);
                    }
                }
                assert forall|a: int, b: int|
                    old(self).in_bounds(a, b) && (#[trigger] old(self).vis_at(a, b))
                        == Visibility::Hidden && self.vis_at(a, b) == Visibility::Revealed && !(a
                        == x as int && b == y as int) implies self.revealed_zero(a, b - 1)
                    || self.revealed_zero(a, b + 1) || self.revealed_zero(a - 1, b)
                    || self.revealed_zero(a + 1, b) by {
                    mid.lemma_idx_bounds(a, b);
                    if mid.idx(a, b) == mid.idx(x as int, y as int) {
                        mid.lemma_idx_injective(a, b, x as int, y as int);
                        assert(false);
                    }
                    assert(mid.vis_at(a, b) == Visibility::Hidden);
                }
                assert(cascade_complete_from(*old(self), *self, x as int, y as int));
                assert(cascade_justified(*old(self), *self, x as int, y as int));
                s2 = *self;
            }
        }
        if self.check_win() {
            self.status = GameStatus::Won;
        }
        proof {
            if adj == 0 {
                assert forall|a: int, b: int|
                    (#[trigger] self.revealed_zero(a, b)) && (old(self).vis_at(a, b)
                        == Visibility::Hidden || (a == x as int && b == y as int)) implies (
                !self.hidden_empty(a, b - 1) && !self.hidden_empty(a, b + 1) && !self.hidden_empty(
                    a - 1,
                    b,
                ) && !self.hidden_empty(a + 1, b)) by {
                    // the win evaluation touched only the status, which none
                    // of these cell predicates read
                    assert(s2.revealed_zero(a, b));
                    assert(!s2.hidden_empty(a, b - 1) && !s2.hidden_empty(a, b + 1)
                        && !s2.hidden_empty(a - 1, b) && !s2.hidden_empty(a + 1, b));
                }
                assert forall|a: int, b: int|
                    old(self).in_bounds(a, b) && (#[trigger] old(self).vis_at(a, b))
                        == Visibility::Hidden && self.vis_at(a, b) == Visibility::Revealed && !(a
                        == x as int && b == y as int) implies self.revealed_zero(a, b - 1)
                    || self.revealed_zero(a, b + 1) || self.revealed_zero(a - 1, b)
                    || self.revealed_zero(a + 1, b) by {
                    assert(s2.vis_at(a, b) == self.vis_at(a, b));
                    if s2.revealed_zero(a, b - 1) {
                        assert(self.revealed_zero(a, b - 1));
                    }
                    if s2.revealed_zero(a, b + 1) {
                        assert(self.revealed_zero(a, b + 1));
                    }
                    if s2.revealed_zero(a - 1, b) {
                        assert(self.revealed_zero(a - 1, b));
                    }
                    if s2.revealed_zero(a + 1, b) {
                        assert(self.revealed_zero(a + 1, b));
                    }
                }
            }
        }
        Ok(ClickOutcome::Opened(adj as u8))
    }

    /// The flag command. Rejected without mutation after game over, outside
    /// the board, or on a revealed cell. Otherwise it toggles the cell
    /// between hidden and flagged, keeps the remaining-flag counter at the
    /// mine count minus the number of flags, and evaluates the win
    /// condition. Flagging never touches the truth grid.
    pub fn flag(&mut self, x: u8, y: u8) -> (r: Result<FlagOutcome, GameError>)
        requires
            old(self).wf(),
        ensures
            final(self).wf(),
            final(self).content@ == old(self).content@,
            final(self).width == old(self).width,
            final(self).height == old(self).height,
            final(self).mines == old(self).mines,
            old(self).status != GameStatus::Playing ==> r == Err::<FlagOutcome, GameError>(
                GameError::GameOver,
            ) && final(self).unchanged(*old(self)),
            old(self).status == GameStatus::Playing && !old(self).in_bounds(x as int, y as int)
                ==> r == Err::<FlagOutcome, GameError>(GameError::OutOfBounds) && final(self).unchanged(*old(self)),
            old(self).status == GameStatus::Playing && old(self).in_bounds(x as int, y as int)
                && old(self).vis_at(x as int, y as int) == Visibility::Revealed ==> r == Err::<
                FlagOutcome,
                GameError,
            >(GameError::Blocked) && final(self).unchanged(*old(self)),
            old(self).status == GameStatus::Playing && old(self).in_bounds(x as int, y as int)
                && old(self).vis_at(x as int, y as int) == Visibility::Hidden ==> r == Ok::<
                FlagOutcome,
                GameError,
            >(FlagOutcome::Flagged) && flag_sets(*old(self), *final(self), x as int, y as int),
            old(self).status == GameStatus::Playing && old(self).in_bounds(x as int, y as int)
                && old(self).vis_at(x as int, y as int) == Visibility::Flagged ==> r == Ok::<
                FlagOutcome,
                GameError,
            >(FlagOutcome::Unflagged) && flag_clears(*old(self), *final(self), x as int, y as int),
    {
        match self.status {
            GameStatus::Playing => {},
            _ => {
                return Err(GameError::GameOver);
            },
        }
        if !self.check_bounds(x as isize, y as isize) {
            return Err(GameError::OutOfBounds);
        }
        let i = self.flat_index(x as usize, y as usize);
        proof {
            lemma_count_flagged_bounds(self.visibility@);
            lemma_count_mines_bounds(self.content@);
            lemma_mul_le(self.width as int, self.height as int, 255, 255);
        }
        match self.visibility[i] {
            Visibility::Revealed => Err(GameError::Blocked),
            Visibility::Hidden => {
                proof {
                    lemma_count_flagged_update(self.visibility@, i as int, Visibility::Flagged);
                }
                self.visibility[i] = Visibility::Flagged;
                self.remaining_flags = self.remaining_flags - 1;
                if self.check_win() {
                    self.status = GameStatus::Won;
                }
                Ok(FlagOutcome::Flagged)
            },
            Visibility::Flagged => {
                proof {
                    lemma_count_flagged_update(self.visibility@, i as int, Visibility::Hidden);
                }
                self.visibility[i] = Visibility::Hidden;
                self.remaining_flags = self.remaining_flags + 1;
                if self.check_win() {
                    self.status = GameStatus::Won;
                }
                Ok(FlagOutcome::Unflagged)
            },
        }
    }

    /// The derived display value of the in-bounds cell `(x, y)`: hidden and
    /// flagged cells as such, a revealed cell with its adjacency count, and
    /// a revealed mine (only seen after a loss) as a mine.
    pub open spec fn cell_view(self, x: int, y: int) -> CellView {
        match self.vis_at(x, y) {
            Visibility::Hidden => CellView::Hidden,
            Visibility::Flagged => CellView::Flagged,
            Visibility::Revealed => if self.content_at(x, y) == CellContent::Mine {
                CellView::Mine
            } else {
                CellView::Open(self.adjacency(x, y) as u8)
            },
        }
    }

    /// The player-facing view of the whole board, row-major: a pure function
    /// of the current state, with no side effect. The console collaborator
    /// owns all printing.
    #[verifier::loop_isolation(false)]
    pub fn render_view(&self) -> (v: Vec<CellView>)
        requires
            self.wf(),
        ensures
            v@.len() == self.area(),
            forall|a: int, b: int|
                self.in_bounds(a, b) ==> v@[#[trigger] self.idx(a, b)] == self.cell_view(a, b),
    {
        proof {
            lemma_mul_le(self.width as int, self.height as int, 255, 255);
            lemma_mul_le(1, 1, self.width as int, self.height as int);
        }
        let n = self.content.len();
        let mut v: Vec<CellView> = Vec::new();
        let mut cx: u8 = 0;
        let mut cy: u8 = 0;
        let mut i: usize = 0;
        while i < n
            invariant
                i <= n,
                (cx as int) < self.width as int,
                (cy as int) <= self.height as int,
                i as int == self.idx(cx as int, cy as int),
                i == n ==> cy as int == self.height as int,
                v@.len() == i,
                forall|a: int, b: int|
                    self.in_bounds(a, b) && #[trigger] self.idx(a, b) < i as int ==> v@[self.idx(
                        a,
                        b,
                    )] == self.cell_view(a, b),
            decreases n - i,
        {
            proof {
                if cy as int == self.height as int {
                    lemma_mul_comm(self.height as int, self.width as int);
                    assert(false);
                }
            }
            let cell = match self.visibility[i] {
                Visibility::Hidden => CellView::Hidden,
                Visibility::Flagged => CellView::Flagged,
                Visibility::Revealed => if self.content[i] == CellContent::Mine {
                    CellView::Mine
                } else {
                    CellView::Open(self.find_close_mines(cx as isize, cy as isize) as u8)
                },
            };
            v.push(cell);
            proof {
                assert forall|a: int, b: int|
                    self.in_bounds(a, b) && #[trigger] self.idx(a, b) < i as int + 1 implies v@[
                self.idx(a, b)] == self.cell_view(a, b) by {
                    if self.idx(a, b) == i as int {
                        self.lemma_idx_injective(a, b, cx as int, cy as int);
                    }
                }
            }
            i = i + 1;
            if cx + 1 < self.width {
                proof {
                    lemma_row_major_bounds(
                        cx as int + 1,
                        cy as int,
                        self.width as int,
                        self.height as int,
                    );
                }
                cx = cx + 1;
            } else {
                proof {
                    assert((cy as int + 1) * (self.width as int) == cy as int * (self.width as int)
                        + self.width as int) by (nonlinear_arith);
                    if i == n {
                        lemma_mul_comm(self.height as int, self.width as int);
                        lemma_row_major_injective(
                            0,
                            cy as int + 1,
                            0,
                            self.height as int,
                            self.width as int,
                        );
                    }
                }
                cx = 0;
                cy = cy + 1;
            }
        }
        proof {
            assert forall|a: int, b: int| self.in_bounds(a, b) implies #[trigger] self.idx(a, b)
                < n as int by {
                self.lemma_idx_bounds(a, b);
            }
        }
        v
    }

    /// The game status.
    pub fn status(&self) -> (s: GameStatus)
        ensures
            s == self.status,
    {
        self.status
    }

    /// The truth content of `(x, y)`; an out-of-bounds pair is rejected.
    pub fn content(&self, x: u8, y: u8) -> (r: Result<CellContent, GameError>)
        requires
            self.wf(),
        ensures
            self.in_bounds(x as int, y as int) ==> r == Ok::<CellContent, GameError>(
                self.content_at(x as int, y as int),
            ),
            !self.in_bounds(x as int, y as int) ==> r == Err::<CellContent, GameError>(
                GameError::OutOfBounds,
            ),
    {
        if !self.check_bounds(x as isize, y as isize) {
            return Err(GameError::OutOfBounds);
        }
        let i = self.flat_index(x as usize, y as usize);
        Ok(self.content[i])
    }

    /// The visibility of `(x, y)`; an out-of-bounds pair is rejected.
    pub fn visibility(&self, x: u8, y: u8) -> (r: Result<Visibility, GameError>)
        requires
            self.wf(),
        ensures
            self.in_bounds(x as int, y as int) ==> r == Ok::<Visibility, GameError>(
                self.vis_at(x as int, y as int),
            ),
            !self.in_bounds(x as int, y as int) ==> r == Err::<Visibility, GameError>(
                GameError::OutOfBounds,
            ),
    {
        if !self.check_bounds(x as isize, y as isize) {
            return Err(GameError::OutOfBounds);
        }
        let i = self.flat_index(x as usize, y as usize);
        Ok(self.visibility[i])
    }

    /// Appends `(cx, cy)` to the cascade worklist when it lies on the board,
    /// and leaves the worklist alone otherwise.
    fn push_coord(&self, stack: &mut Vec<(u8, u8)>, cx: isize, cy: isize)
        ensures
            self.in_bounds(cx as int, cy as int) ==> final(stack)@ == old(stack)@.push(
                ((cx as u8, cy as u8)),
            ),
            !self.in_bounds(cx as int, cy as int) ==> final(stack)@ == old(stack)@,
    {
        if self.check_bounds(cx, cy) {
            stack.push((cx as u8, cy as u8));
        }
    }

    /// Appends every in-bounds orthogonal neighbor of `(x, y)` to the
    /// cascade worklist, touching nothing that was already on it.
    fn push_frontier(&self, stack: &mut Vec<(u8, u8)>, x: u8, y: u8)
        requires
            self.in_bounds(x as int, y as int),
        ensures
            final(stack)@.len() >= old(stack)@.len(),
            forall|k: int| 0 <= k < old(stack)@.len() ==> final(stack)@[k] == old(stack)@[k],
            forall|k: int|
                old(stack)@.len() <= k < final(stack)@.len() ==> self.in_bounds(
                    (#[trigger] final(stack)@[k]).0 as int,
                    final(stack)@[k].1 as int,
                ) && is_orth_neighbor(
                    final(stack)@[k].0 as int,
                    final(stack)@[k].1 as int,
                    x as int,
                    y as int,
                ),
            forall|c: int, d: int|
                self.in_bounds(c, d) && is_orth_neighbor(c, d, x as int, y as int) ==> #[trigger] stack_contains(
                    final(stack)@,
                    c,
                    d,
                ),
    {
        let ghost s0 = stack@;
        self.push_coord(stack, x as isize, (y as isize) - 1);
        let ghost s1 = stack@;
        self.push_coord(stack, x as isize, (y as isize) + 1);
        let ghost s2 = stack@;
        self.push_coord(stack, (x as isize) - 1, y as isize);
        let ghost s3 = stack@;
        self.push_coord(stack, (x as isize) + 1, y as isize);
        let ghost s4 = stack@;
        proof {
            if self.in_bounds(x as int, y as int - 1) {
                assert(s4[s0.len() as int] == s1[s0.len() as int]);
                assert(stack_contains(s4, x as int, y as int - 1));
            }
            if self.in_bounds(x as int, y as int + 1) {
                assert(s4[s1.len() as int] == s2[s1.len() as int]);
                assert(stack_contains(s4, x as int, y as int + 1));
            }
            if self.in_bounds(x as int - 1, y as int) {
                assert(s4[s2.len() as int] == s3[s2.len() as int]);
                assert(stack_contains(s4, x as int - 1, y as int));
            }
            if self.in_bounds(x as int + 1, y as int) {
                assert(s4[s3.len() as int].0 as int == x as int + 1 && s4[s3.len() as int].1 as int
                    == y as int);
                assert(stack_contains(s4, x as int + 1, y as int));
            }
            assert forall|k: int| s0.len() <= k < s4.len() implies self.in_bounds(
                (#[trigger] s4[k]).0 as int,
                s4[k].1 as int,
            ) && is_orth_neighbor(s4[k].0 as int, s4[k].1 as int, x as int, y as int) by {
                if k < s1.len() {
                    assert(s4[k] == s1[k]);
                } else if k < s2.len() {
                    assert(s4[k] == s2[k]);
                } else if k < s3.len() {
                    assert(s4[k] == s3[k]);
                }
            }
        }
    }

    /// The flood-fill cascade. `(x, y)` is a just-revealed mine-free cell
    /// with adjacency count zero; the cascade iteratively reveals every
    /// still-hidden mine-free cell it can reach through orthogonal neighbors
    /// of zero-adjacency cells, leaving cells with a positive adjacency count
    /// as unexpanded boundary leaves and never touching a flagged cell. An
    /// explicit worklist replaces recursion; the shrinking number of hidden
    /// cells bounds the work by the board area and proves termination.
    #[verifier::loop_isolation(false)]
    #[verifier::rlimit(80)]
    pub fn reveal_empties(&mut self, x: u8, y: u8)
        requires
            old(self).wf(),
            old(self).in_bounds(x as int, y as int),
            old(self).content_at(x as int, y as int) == CellContent::Empty,
            old(self).vis_at(x as int, y as int) == Visibility::Revealed,
            old(self).adjacency(x as int, y as int) == 0,
        ensures
            final(self).wf(),
            final(self).content@ == old(self).content@,
            final(self).width == old(self).width,
            final(self).height == old(self).height,
            final(self).mines == old(self).mines,
            final(self).remaining_flags == old(self).remaining_flags,
            final(self).status == old(self).status,
            reveals_only(*old(self), *final(self)),
            cascade_complete_from(*old(self), *final(self), x as int, y as int),
            cascade_justified(*old(self), *final(self), x as int, y as int),
    {
        let mut stack: Vec<(u8, u8)> = Vec::new();
        self.push_frontier(&mut stack, x, y);
        proof {
            assert(self.revealed_zero(x as int, y as int));
        }
        while stack.len() > 0
            invariant
                self.wf(),
                self.width == old(self).width,
                self.height == old(self).height,
                self.content@ == old(self).content@,
                self.mines == old(self).mines,
                self.remaining_flags == old(self).remaining_flags,
                self.status == old(self).status,
                reveals_only(*old(self), *self),
                forall|k: int|
                    0 <= k < stack@.len() ==> self.in_bounds(
                        (#[trigger] stack@[k]).0 as int,
                        stack@[k].1 as int,
                    ),
                forall|k: int|
                    0 <= k < stack@.len() ==> self.revealed_zero(
                        (#[trigger] stack@[k]).0 as int,
                        stack@[k].1 as int - 1,
                    ) || self.revealed_zero(stack@[k].0 as int, stack@[k].1 as int + 1)
                        || self.revealed_zero(stack@[k].0 as int - 1, stack@[k].1 as int)
                        || self.revealed_zero(stack@[k].0 as int + 1, stack@[k].1 as int),
                cascade_justified(*old(self), *self, x as int, y as int),
                forall|a: int, b: int|
                    (#[trigger] self.revealed_zero(a, b)) && (old(self).vis_at(a, b)
                        == Visibility::Hidden || (a == x as int && b == y as int)) ==> (
                    !self.hidden_empty(a, b - 1) || stack_contains(stack@, a, b - 1)) && (
                    !self.hidden_empty(a, b + 1) || stack_contains(stack@, a, b + 1)) && (
                    !self.hidden_empty(a - 1, b) || stack_contains(stack@, a - 1, b)) && (
                    !self.hidden_empty(a + 1, b) || stack_contains(stack@, a + 1, b)),
            decreases count_hidden(self.visibility@), stack@.len(),
        {
            let ghost s0 = *self;
            let ghost t0 = stack@;
            proof {
                lemma_count_hidden_bounds(self.visibility@);
            }
            let top = stack.pop().unwrap();
            let cx = top.0;
            let cy = top.1;
            let ghost px = cx as int;
            let ghost py = cy as int;
            let i = self.flat_index(cx as usize, cy as usize);
            if self.visibility[i] == Visibility::Hidden && self.content[i] == CellContent::Empty {
                proof {
                    lemma_count_flagged_update(self.visibility@, i as int, Visibility::Revealed);
                    lemma_count_hidden_update(self.visibility@, i as int, Visibility::Revealed);
                }
                self.visibility[i] = Visibility::Revealed;
                proof {
                    lemma_count_hidden_bounds(self.visibility@);
                }
                let adj = self.find_close_mines(cx as isize, cy as isize);
                if adj == 0 {
                    self.push_frontier(&mut stack, cx, cy);
                }
            }
            proof {
                // the popped cell's own justification, and every other
                // worklist entry's, survive this iteration: revealing one
                // more cell keeps every revealed zero-adjacency cell one
                assert forall|k: int| 0 <= k < stack@.len() implies self.revealed_zero(
                    (#[trigger] stack@[k]).0 as int,
                    stack@[k].1 as int - 1,
                ) || self.revealed_zero(stack@[k].0 as int, stack@[k].1 as int + 1)
                    || self.revealed_zero(stack@[k].0 as int - 1, stack@[k].1 as int)
                    || self.revealed_zero(stack@[k].0 as int + 1, stack@[k].1 as int) by {
                    if k < t0.len() - 1 {
                        assert(stack@[k] == t0[k]);
                        let e0 = t0[k].0 as int;
                        let e1 = t0[k].1 as int;
                        if s0.revealed_zero(e0, e1 - 1) {
                            lemma_revealed_zero_preserved(s0, *self, e0, e1 - 1);
                        }
                        if s0.revealed_zero(e0, e1 + 1) {
                            lemma_revealed_zero_preserved(s0, *self, e0, e1 + 1);
                        }
                        if s0.revealed_zero(e0 - 1, e1) {
                            lemma_revealed_zero_preserved(s0, *self, e0 - 1, e1);
                        }
                        if s0.revealed_zero(e0 + 1, e1) {
                            lemma_revealed_zero_preserved(s0, *self, e0 + 1, e1);
                        }
                    } else {
                        assert(self.vis_at(px, py) == Visibility::Revealed);
                    }
                }
                assert forall|a: int, b: int|
                    old(self).in_bounds(a, b) && (#[trigger] old(self).vis_at(a, b))
                        == Visibility::Hidden && self.vis_at(a, b) == Visibility::Revealed && !(a
                        == x as int && b == y as int) implies self.revealed_zero(a, b - 1)
                    || self.revealed_zero(a, b + 1) || self.revealed_zero(a - 1, b)
                    || self.revealed_zero(a + 1, b) by {
                    if s0.vis_at(a, b) != Visibility::Revealed {
                        // this very cell was revealed in this iteration, so
                        // it is the popped cell, and the worklist invariant
                        // held its justification
                        s0.lemma_idx_bounds(a, b);
                        if s0.idx(a, b) != s0.idx(px, py) {
                            assert(false);
                        }
                        s0.lemma_idx_injective(a, b, px, py);
                        assert(t0[t0.len() - 1] == ((cx, cy)));
                    }
                    if s0.revealed_zero(a, b - 1) {
                        lemma_revealed_zero_preserved(s0, *self, a, b - 1);
                    }
                    if s0.revealed_zero(a, b + 1) {
                        lemma_revealed_zero_preserved(s0, *self, a, b + 1);
                    }
                    if s0.revealed_zero(a - 1, b) {
                        lemma_revealed_zero_preserved(s0, *self, a - 1, b);
                    }
                    if s0.revealed_zero(a + 1, b) {
                        lemma_revealed_zero_preserved(s0, *self, a + 1, b);
                    }
                }
                assert forall|a: int, b: int|
                    (#[trigger] self.revealed_zero(a, b)) && (old(self).vis_at(a, b)
                        == Visibility::Hidden || (a == x as int && b == y as int)) implies (
                !self.hidden_empty(a, b - 1) || stack_contains(stack@, a, b - 1)) && (
                !self.hidden_empty(a, b + 1) || stack_contains(stack@, a, b + 1)) && (
                !self.hidden_empty(a - 1, b) || stack_contains(stack@, a - 1, b)) && (
                !self.hidden_empty(a + 1, b) || stack_contains(stack@, a + 1, b)) by {
                    if s0.revealed_zero(a, b) {
                        lemma_frontier_step(s0, *self, t0, stack@, px, py, a, b - 1);
                        lemma_frontier_step(s0, *self, t0, stack@, px, py, a, b + 1);
                        lemma_frontier_step(s0, *self, t0, stack@, px, py, a - 1, b);
                        lemma_frontier_step(s0, *self, t0, stack@, px, py, a + 1, b);
                    } else {
                        // the one cell that newly became a revealed
                        // zero-adjacency cell is the popped cell itself, and
                        // its whole in-bounds orthogonal frontier was pushed
                        if a != px || b != py {
                            s0.lemma_idx_bounds(a, b);
                            if s0.idx(a, b) == s0.idx(px, py) {
                                s0.lemma_idx_injective(a, b, px, py);
                            }
                            assert(s0.revealed_zero(a, b));
                            assert(false);
                        }
                    }
                }
            }
        }
    }
}

} // verus!
