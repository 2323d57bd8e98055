//! Where a word may lie on the board, and what it takes to write it there.
//!
//! A word runs from a start cell along one of the eight compass directions. A
//! placement is acceptable when every cell of its span is blank or already
//! holds the letter the word wants there; it may further be asked to cross a
//! letter that is already on the board.

use vstd::prelude::*;
use crate::grid::{Cells, Grid, has_letter, keeps_letters, rectangular};

verus! {

/// The coordinate reached from `start` after `i` steps of `step`.
pub open spec fn advance(start: int, i: int, step: int) -> int {
    start + i * step
}

/// `advance` for each of the three steps a direction is made of.
pub proof fn lemma_advance(start: int, i: int, step: int)
    ensures
        step == 1 ==> advance(start, i, step) == start + i,
        step == -1 ==> advance(start, i, step) == start - i,
        step == 0 ==> advance(start, i, step) == start,
{
    assert(step == 1 ==> i * step == i) by (nonlinear_arith);
    assert(step == -1 ==> i * step == -i) by (nonlinear_arith);
    assert(step == 0 ==> i * step == 0) by (nonlinear_arith);
}

/// The least start from which `len` cells fit along `step`.
pub open spec fn start_lo(step: int, len: nat) -> int {
    if step == -1 && len >= 1 {
        len - 1
    } else {
        0
    }
}

/// One past the greatest start that is drawn for `len` cells along `step` on
/// an axis of `extent` cells. Forward, the last cell of the axis is left free
/// unless the word takes the whole axis, which leaves the start 0 alone.
pub open spec fn start_hi(step: int, len: nat, extent: nat) -> int {
    if step == 1 {
        if len < extent {
            extent - len
        } else {
            1
        }
    } else {
        extent as int
    }
}

/// A candidate position of a word: the direction it runs in and the cell of
/// its first letter.
#[derive(Clone, Copy, Debug)]
pub struct Placement {
    /// Rows gained per letter: -1 (up), 0 or 1 (down).
    pub vstep: i32,
    /// Columns gained per letter: -1 (left), 0 or 1 (right).
    pub hstep: i32,
    /// Row of the first letter.
    pub row: usize,
    /// Column of the first letter.
    pub col: usize,
}

impl Placement {
    /// The row of the letter at offset `i`.
    pub open spec fn row_at(self, i: int) -> int {
        advance(self.row as int, i, self.vstep as int)
    }

    /// The column of the letter at offset `i`.
    pub open spec fn col_at(self, i: int) -> int {
        advance(self.col as int, i, self.hstep as int)
    }

    /// The steps form one of the eight compass directions.
    pub open spec fn is_direction(self) -> bool {
        &&& -1 <= self.vstep <= 1
        &&& -1 <= self.hstep <= 1
        &&& !(self.vstep == 0 && self.hstep == 0)
    }

    /// The span of a word of `len` letters lies on a board of `width` by
    /// `height` cells.
    pub open spec fn within(self, len: nat, width: nat, height: nat) -> bool {
        &&& self.is_direction()
        &&& forall|i: int|
            0 <= i < len ==> 0 <= #[trigger] self.row_at(i) < height && 0 <= self.col_at(i) < width
    }

    /// The start lies in the range that is drawn from for this direction.
    pub open spec fn admissible(self, len: nat, width: nat, height: nat) -> bool {
        &&& self.is_direction()
        &&& start_lo(self.vstep as int, len) <= self.row < start_hi(self.vstep as int, len, height)
        &&& start_lo(self.hstep as int, len) <= self.col < start_hi(self.hstep as int, len, width)
    }

    /// The span passes through the cell in row `r`, column `c`.
    pub open spec fn covers(self, len: nat, r: int, c: int) -> bool {
        exists|i: int| 0 <= i < len && #[trigger] self.row_at(i) == r && self.col_at(i) == c
    }
}

/// A start drawn from the ranges of its direction keeps the whole span of a
/// word that is no longer than the board on the board.
pub proof fn lemma_admissible_within(p: Placement, len: nat, width: nat, height: nat)
    requires
        p.admissible(len, width, height),
        len <= width,
        len <= height,
    ensures
        p.within(len, width, height),
{
    assert forall|i: int| 0 <= i < len implies 0 <= #[trigger] p.row_at(i) < height && 0
        <= p.col_at(i) < width by {
        lemma_advance(p.row as int, i, p.vstep as int);
        lemma_advance(p.col as int, i, p.hstep as int);
    }
}

/// Two different offsets of a span are two different cells.
pub proof fn lemma_span_distinct(p: Placement, i: int, j: int)
    requires
        p.is_direction(),
        i != j,
    ensures
        p.row_at(i) != p.row_at(j) || p.col_at(i) != p.col_at(j),
{
    lemma_advance(p.row as int, i, p.vstep as int);
    lemma_advance(p.col as int, i, p.hstep as int);
    lemma_advance(p.row as int, j, p.vstep as int);
    lemma_advance(p.col as int, j, p.hstep as int);
}

/// Some cell of the span already holds the letter that `letters` wants there.
pub open spec fn crosses(cells: Cells, letters: Seq<char>, p: Placement) -> bool {
    exists|i: int|
        0 <= i < letters.len() && cells[#[trigger] p.row_at(i)][p.col_at(i)] == Some(letters[i])
}

/// Every cell of the span is blank or already holds the letter that `letters`
/// wants there.
pub open spec fn fits(cells: Cells, letters: Seq<char>, p: Placement) -> bool {
    forall|i: int|
        0 <= i < letters.len() ==> {
            let cell = cells[#[trigger] p.row_at(i)][p.col_at(i)];
            cell.is_none() || cell == Some(letters[i])
        }
}

/// `letters` may be written at `p`. Where a crossing is asked for and the
/// board holds a letter, the span must cross; in every case it must fit.
pub open spec fn placeable(cells: Cells, letters: Seq<char>, p: Placement, need_shared: bool) -> bool {
    &&& need_shared && has_letter(cells) ==> crosses(cells, letters, p)
    &&& fits(cells, letters, p)
}

/// `after` is `before` with `letters` written along `p`: the cells of the span
/// hold the letters, and every other cell is as it was.
pub open spec fn inscribed(before: Cells, after: Cells, letters: Seq<char>, p: Placement) -> bool {
    &&& after.len() == before.len()
    &&& forall|r: int| 0 <= r < before.len() ==> (#[trigger] after[r]).len() == before[r].len()
    &&& forall|i: int|
        0 <= i < letters.len() ==> after[#[trigger] p.row_at(i)][p.col_at(i)] == Some(letters[i])
    &&& forall|r: int, c: int|
        0 <= r < before.len() && 0 <= c < before[r].len() && !p.covers(letters.len(), r, c) ==> (
        #[trigger] after[r][c]) == before[r][c]
}

/// The index reached from `u` after `i` steps of `d`.
pub fn step_index(u: usize, i: usize, d: i32) -> (k: usize)
    requires
        -1 <= d <= 1,
        0 <= advance(u as int, i as int, d as int) <= usize::MAX,
    ensures
        k == advance(u as int, i as int, d as int),
{
    proof {
        lemma_advance(u as int, i as int, d as int);
    }
    if d == -1 {
        u - i
    } else if d == 1 {
        u + i
    } else {
        u
    }
}

/// Whether some cell of the span already holds the letter wanted there.
pub fn crosses_at(grid: &Grid, letters: &[char], p: Placement) -> (b: bool)
    requires
        grid.wf(),
        p.within(letters@.len(), grid.width() as nat, grid.height() as nat),
    ensures
        b == crosses(grid@, letters@, p),
{
    let n = letters.len();
    let mut i: usize = 0;
    while i < n
        invariant
            i <= n,
            n == letters@.len(),
            grid.wf(),
            p.within(letters@.len(), grid.width() as nat, grid.height() as nat),
            forall|j: int|
                0 <= j < i ==> grid@[#[trigger] p.row_at(j)][p.col_at(j)] != Some(letters@[j]),
        decreases n - i,
    {
        assert(0 <= p.row_at(i as int) < grid.height());
        let r = step_index(p.row, i, p.vstep);
        let c = step_index(p.col, i, p.hstep);
        match grid.get(r, c) {
            Some(x) => {
                if x == letters[i] {
                    return true;
                }
            },
            None => {},
        }
        i += 1;
    }
    false
}

/// Whether every cell of the span is blank or holds the letter wanted there.
pub fn fits_at(grid: &Grid, letters: &[char], p: Placement) -> (b: bool)
    requires
        grid.wf(),
        p.within(letters@.len(), grid.width() as nat, grid.height() as nat),
    ensures
        b == fits(grid@, letters@, p),
{
    let n = letters.len();
    let mut i: usize = 0;
    while i < n
        invariant
            i <= n,
            n == letters@.len(),
            grid.wf(),
            p.within(letters@.len(), grid.width() as nat, grid.height() as nat),
            forall|j: int|
                0 <= j < i ==> {
                    let cell = grid@[#[trigger] p.row_at(j)][p.col_at(j)];
                    cell.is_none() || cell == Some(letters@[j])
                },
        decreases n - i,
    {
        assert(0 <= p.row_at(i as int) < grid.height());
        let r = step_index(p.row, i, p.vstep);
        let c = step_index(p.col, i, p.hstep);
        match grid.get(r, c) {
            Some(x) => {
                if x != letters[i] {
                    return false;
                }
            },
            None => {},
        }
        i += 1;
    }
    true
}

/// Writes `letters` along `p`, where they fit.
pub fn inscribe(grid: &mut Grid, letters: &[char], p: Placement)
    requires
        old(grid).wf(),
        p.within(letters@.len(), old(grid).width() as nat, old(grid).height() as nat),
        fits(old(grid)@, letters@, p),
    ensures
        final(grid).wf(),
        final(grid).width() == old(grid).width(),
        final(grid).height() == old(grid).height(),
        inscribed(old(grid)@, final(grid)@, letters@, p),
        keeps_letters(old(grid)@, final(grid)@),
{
    let n = letters.len();
    let ghost before = grid@;
    let ghost width = grid.width() as nat;
    let ghost height = grid.height() as nat;
    proof {
        grid.lemma_wf_shape();
    }
    let mut i: usize = 0;
    while i < n
        invariant
            i <= n,
            n == letters@.len(),
            grid.wf(),
            grid.width() == width,
            grid.height() == height,
            rectangular(before, width, height),
            rectangular(grid@, width, height),
            p.within(letters@.len(), width, height),
            fits(before, letters@, p),
            forall|j: int|
                0 <= j < i ==> grid@[#[trigger] p.row_at(j)][p.col_at(j)] == Some(letters@[j]),
            forall|r: int, c: int|
                0 <= r < height && 0 <= c < width && !p.covers(i as nat, r, c) ==> (
                #[trigger] grid@[r][c]) == before[r][c],
        decreases n - i,
    {
        assert(0 <= p.row_at(i as int) < height);
        let r = step_index(p.row, i, p.vstep);
        let c = step_index(p.col, i, p.hstep);
        let ghost prev = grid@;
        proof {
            assert(!p.covers(i as nat, r as int, c as int)) by {
                if p.covers(i as nat, r as int, c as int) {
                    let k = choose|k: int|
                        0 <= k < i && #[trigger] p.row_at(k) == r && p.col_at(k) == c;
                    lemma_span_distinct(p, k, i as int);
                }
            }
            assert(grid@[r as int][c as int] == before[p.row_at(i as int)][p.col_at(i as int)]);
        }
        grid.set(r, c, letters[i]);
        proof {
            grid.lemma_wf_shape();
            assert forall|j: int| 0 <= j < i + 1 implies grid@[#[trigger] p.row_at(j)][p.col_at(
                j,
            )] == Some(letters@[j]) by {
                if j < i {
                    lemma_span_distinct(p, j, i as int);
                }
            }
            assert forall|r2: int, c2: int|
                0 <= r2 < height && 0 <= c2 < width && !p.covers((i + 1) as nat, r2, c2) implies (
            #[trigger] grid@[r2][c2]) == before[r2][c2] by {
                assert(!(p.row_at(i as int) == r2 && p.col_at(i as int) == c2));
                assert(!p.covers(i as nat, r2, c2)) by {
                    if p.covers(i as nat, r2, c2) {
                        let k = choose|k: int|
                            0 <= k < i && #[trigger] p.row_at(k) == r2 && p.col_at(k) == c2;
                        assert(0 <= k < i + 1 && p.row_at(k) == r2 && p.col_at(k) == c2);
                    }
                }
                assert(prev[r2][c2] == before[r2][c2]);
            }
        }
        i += 1;
    }
    proof {
        assert forall|r: int, c: int|
            0 <= r < before.len() && 0 <= c < before[r].len() && before[r][c].is_some() implies (
        #[trigger] grid@[r][c]) == before[r][c] by {
            if p.covers(n as nat, r, c) {
                let k = choose|k: int| 0 <= k < n && #[trigger] p.row_at(k) == r && p.col_at(k) == c;
                assert(grid@[p.row_at(k)][p.col_at(k)] == Some(letters@[k]));
            }
        }
    }
}

/// Writes `letters` along `p` if they may be written there, and says whether
/// it did. A refused placement leaves the board as it was.
pub fn place_at(grid: &mut Grid, letters: &[char], p: Placement, need_shared: bool) -> (placed:
    bool)
    requires
        old(grid).wf(),
        p.within(letters@.len(), old(grid).width() as nat, old(grid).height() as nat),
    ensures
        final(grid).wf(),
        final(grid).width() == old(grid).width(),
        final(grid).height() == old(grid).height(),
        placed == placeable(old(grid)@, letters@, p, need_shared),
        placed ==> inscribed(old(grid)@, final(grid)@, letters@, p),
        !placed ==> final(grid)@ == old(grid)@,
        keeps_letters(old(grid)@, final(grid)@),
{
    if need_shared && grid.is_occupied() {
        if !crosses_at(grid, letters, p) {
            return false;
        }
    }
    if !fits_at(grid, letters, p) {
        return false;
    }
    inscribe(grid, letters, p);
    true
}


} // verus!
