//! The noise fill: every cell that no word took gets a letter of the alphabet.
//!
//! The board is walked once, row by row from the top and each row from the
//! left. Each blank cell costs one draw, an index into the alphabet.

use vstd::prelude::*;
use crate::grid::{Cells, Grid, blank_free, keeps_letters, rectangular};
use crate::random::RandomStream;
use crate::search::drawn_since;

verus! {

/// The number of blank cells among the first `upto` cells of `row`.
pub open spec fn blanks_in(row: Seq<Option<char>>, upto: int) -> nat
    decreases upto,
{
    if upto <= 0 {
        0
    } else {
        blanks_in(row, upto - 1) + if row[upto - 1].is_none() {
            1nat
        } else {
            0nat
        }
    }
}

/// The number of blank cells in the first `upto` rows of `cells`.
pub open spec fn blanks_above(cells: Cells, upto: int) -> nat
    decreases upto,
{
    if upto <= 0 {
        0
    } else {
        blanks_above(cells, upto - 1) + blanks_in(cells[upto - 1], cells[upto - 1].len() as int)
    }
}

/// The number of blank cells that the walk meets before the cell in row `r`,
/// column `c`.
pub open spec fn blanks_before(cells: Cells, r: int, c: int) -> nat {
    blanks_above(cells, r) + blanks_in(cells[r], c)
}

/// The index into `alphabet` that the draws `d` hold for the cell in row `r`,
/// column `c`, where that cell of `before` is blank.
pub open spec fn noise_draw(before: Cells, d: Seq<int>, r: int, c: int) -> int {
    d[blanks_before(before, r, c) as int]
}

/// What the fill leaves in the cell in row `r`, column `c`: the letter that
/// was there, or for a blank the letter of `alphabet` at the index drawn for
/// it.
pub open spec fn filled_cell(before: Cells, alphabet: Seq<char>, d: Seq<int>, r: int, c: int) -> Option<
    char,
> {
    if before[r][c].is_some() {
        before[r][c]
    } else {
        Some(alphabet[noise_draw(before, d, r, c)])
    }
}

/// The draw for the cell in row `r`, column `c`, where that cell of `before`
/// is blank, is an index into `alphabet`.
pub open spec fn draws_letter(before: Cells, alphabet: Seq<char>, d: Seq<int>, r: int, c: int) -> bool {
    before[r][c].is_none() ==> 0 <= noise_draw(before, d, r, c) < alphabet.len()
}

/// What the fill does with the draws `d`: one draw for each blank cell, in the
/// order of the walk; a cell that held a letter keeps it, and a blank cell
/// gets the letter of `alphabet` at the index drawn for it.
pub open spec fn fill_outcome(before: Cells, after: Cells, alphabet: Seq<char>, d: Seq<int>) -> bool {
    &&& after.len() == before.len()
    &&& forall|r: int| 0 <= r < before.len() ==> (#[trigger] after[r]).len() == before[r].len()
    &&& d.len() == blanks_above(before, before.len() as int)
    &&& forall|r: int, c: int|
        0 <= r < before.len() && 0 <= c < before[r].len() ==> (#[trigger] after[r][c])
            == filled_cell(before, alphabet, d, r, c) && draws_letter(before, alphabet, d, r, c)
}

/// Gives every blank cell of `grid` a letter of `alphabet`, drawn from `rng`.
pub fn fill_blanks(grid: &mut Grid, rng: &mut RandomStream, alphabet: &[char])
    requires
        old(grid).wf(),
        alphabet@.len() > 0,
    ensures
        final(grid).wf(),
        final(grid).width() == old(grid).width(),
        final(grid).height() == old(grid).height(),
        old(rng).drawn().is_prefix_of(final(rng).drawn()),
        fill_outcome(
            old(grid)@,
            final(grid)@,
            alphabet@,
            drawn_since(old(rng).drawn(), final(rng).drawn()),
        ),
        blank_free(final(grid)@),
        keeps_letters(old(grid)@, final(grid)@),
{
    let ghost before = grid@;
    let ghost start = rng.drawn();
    let width = grid.width();
    let height = grid.height();
    let n = alphabet.len();
    proof {
        grid.lemma_wf_shape();
    }
    let mut r: usize = 0;
    while r < height
        invariant
            r <= height,
            n == alphabet@.len(),
            n > 0,
            grid.wf(),
            grid.width() == width,
            grid.height() == height,
            rectangular(before, width as nat, height as nat),
            rectangular(grid@, width as nat, height as nat),
            start.is_prefix_of(rng.drawn()),
            drawn_since(start, rng.drawn()).len() == blanks_above(before, r as int),
            forall|r2: int, c2: int|
                0 <= r2 < r && 0 <= c2 < width ==> (#[trigger] grid@[r2][c2]) == filled_cell(
                    before,
                    alphabet@,
                    drawn_since(start, rng.drawn()),
                    r2,
                    c2,
                ) && draws_letter(before, alphabet@, drawn_since(start, rng.drawn()), r2, c2),
            forall|r2: int, c2: int|
                r <= r2 < height && 0 <= c2 < width ==> (#[trigger] grid@[r2][c2]) == before[r2][c2],
        decreases height - r,
    {
        let mut c: usize = 0;
        while c < width
            invariant
                r < height,
                c <= width,
                n == alphabet@.len(),
                n > 0,
                grid.wf(),
                grid.width() == width,
                grid.height() == height,
                rectangular(before, width as nat, height as nat),
                rectangular(grid@, width as nat, height as nat),
                start.is_prefix_of(rng.drawn()),
                drawn_since(start, rng.drawn()).len() == blanks_before(before, r as int, c as int),
                forall|r2: int, c2: int|
                    0 <= r2 < height && 0 <= c2 < width && (r2 < r || (r2 == r && c2 < c)) ==> (
                    #[trigger] grid@[r2][c2]) == filled_cell(
                        before,
                        alphabet@,
                        drawn_since(start, rng.drawn()),
                        r2,
                        c2,
                    ) && draws_letter(before, alphabet@, drawn_since(start, rng.drawn()), r2, c2),
                forall|r2: int, c2: int|
                    0 <= r2 < height && 0 <= c2 < width && (r < r2 || (r2 == r && c <= c2)) ==> (
                    #[trigger] grid@[r2][c2]) == before[r2][c2],
            decreases width - c,
        {
            let ghost seen = drawn_since(start, rng.drawn());
            let ghost shown = grid@;
            assert(grid@[r as int][c as int] == before[r as int][c as int]);
            match grid.get(r, c) {
                Some(_) => {},
                None => {
                    let j = rng.next_in_range(0, n);
                    grid.set(r, c, alphabet[j]);
                    proof {
                        grid.lemma_wf_shape();
                    }
                },
            }
            proof {
                let d = drawn_since(start, rng.drawn());
                lemma_blanks_monotone(before, r as int, c as int, width as int);
                assert(seen.is_prefix_of(d));
                assert forall|r2: int, c2: int|
                    0 <= r2 < height && 0 <= c2 < width && (r2 < r || (r2 == r && c2 < c + 1)) implies (
                #[trigger] grid@[r2][c2]) == filled_cell(before, alphabet@, d, r2, c2)
                    && draws_letter(before, alphabet@, d, r2, c2) by {
                    if !(r2 == r && c2 == c) {
                        assert(shown[r2][c2] == grid@[r2][c2]);
                        assert(shown[r2][c2] == filled_cell(before, alphabet@, seen, r2, c2));
                        assert(draws_letter(before, alphabet@, seen, r2, c2));
                        if before[r2][c2].is_none() {
                            lemma_blank_index_bound(before, r2, c2, r as int, c as int, width as int);
                            assert(seen[blanks_before(before, r2, c2) as int] == d[blanks_before(
                                before,
                                r2,
                                c2,
                            ) as int]);
                        }
                    }
                }
            }
            c += 1;
        }
        r += 1;
    }
}

/// Walking one cell further never lowers the count of blanks met, and raises
/// it by one exactly past a blank cell.
proof fn lemma_blanks_monotone(cells: Cells, r: int, c: int, width: int)
    requires
        0 <= r < cells.len(),
        0 <= c < width,
        forall|i: int| 0 <= i < cells.len() ==> (#[trigger] cells[i]).len() == width,
    ensures
        blanks_before(cells, r, c + 1) == blanks_before(cells, r, c) + if cells[r][c].is_none() {
            1nat
        } else {
            0nat
        },
        c + 1 == width ==> blanks_before(cells, r, c + 1) == blanks_before(cells, r + 1, 0),
{
}

/// A blank cell that the walk has passed was met before the walk's present
/// count of blanks was reached.
proof fn lemma_blank_index_bound(cells: Cells, r2: int, c2: int, r: int, c: int, width: int)
    requires
        0 <= r2 < cells.len(),
        0 <= c2 < width,
        0 <= r <= cells.len(),
        0 <= c <= width,
        r < cells.len() || c == 0,
        forall|i: int| 0 <= i < cells.len() ==> (#[trigger] cells[i]).len() == width,
        r2 < r || (r2 == r && c2 < c),
        cells[r2][c2].is_none(),
    ensures
        blanks_before(cells, r2, c2) < blanks_before(cells, r, c),
{
    lemma_blanks_monotone(cells, r2, c2, width);
    lemma_blanks_le(cells, r2, c2 + 1, r, c, width);
}

/// The count of blanks met grows along the walk.
proof fn lemma_blanks_le(cells: Cells, r2: int, c2: int, r: int, c: int, width: int)
    requires
        0 <= r2 <= cells.len(),
        0 <= c2 <= width,
        0 <= r <= cells.len(),
        0 <= c <= width,
        forall|i: int| 0 <= i < cells.len() ==> (#[trigger] cells[i]).len() == width,
        r2 < r || (r2 == r && c2 <= c),
    ensures
        blanks_before(cells, r2, c2) <= blanks_before(cells, r, c),
    decreases r, c,
{
    if r2 == r {
        if c2 < c {
            lemma_blanks_le(cells, r2, c2, r, c - 1, width);
        }
    } else if c > 0 {
        lemma_blanks_le(cells, r2, c2, r, c - 1, width);
    } else {
        lemma_blanks_le(cells, r2, c2, r - 1, width, width);
    }
}

} // verus!
