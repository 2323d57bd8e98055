//! The search for a place: attempts that draw a direction and a start and
//! write the word there if the board allows it, repeated within a budget.
//!
//! An attempt makes four draws, in this order: the vertical step, the start
//! row, the horizontal step, the start column. With a vertical step of 0 the
//! horizontal step is drawn from the two values -1 and 1 only, so that the
//! direction never degenerates. The eight directions are therefore not drawn
//! equally often: two draws in three give a direction that changes the row.
//!
//! The search is no exhaustive one. It tries `width * height` draws that must
//! cross a letter already on the board, then `width + height` that need not,
//! and gives the word up when none of them may be written.

use vstd::prelude::*;
use crate::grid::{Cells, Grid, keeps_letters};
use crate::placement::{
    Placement, inscribed, lemma_admissible_within, place_at, placeable, start_hi, start_lo,
};
use crate::random::RandomStream;

verus! {

/// The draws that took a stream from `before` to `after`.
pub open spec fn drawn_since(before: Seq<int>, after: Seq<int>) -> Seq<int> {
    after.skip(before.len() as int)
}

/// The horizontal step that the third draw of an attempt stands for.
pub open spec fn hstep_of(vstep: int, draw: int) -> int {
    if vstep != 0 {
        draw
    } else {
        2 * draw - 1
    }
}

/// The placement that attempt number `i` stands for, where every attempt
/// takes four draws of `d`.
pub open spec fn attempt_at(d: Seq<int>, i: int) -> Placement {
    Placement {
        vstep: d[4 * i] as i32,
        hstep: hstep_of(d[4 * i], d[4 * i + 2]) as i32,
        row: d[4 * i + 1] as usize,
        col: d[4 * i + 3] as usize,
    }
}

/// The four draws of attempt number `i` come from the ranges that are drawn
/// from for a word of `len` letters: a step, a start row for that step, a
/// step or a sign, and a start column for the horizontal step.
pub open spec fn in_range_draws(d: Seq<int>, i: int, len: nat, width: nat, height: nat) -> bool {
    let vstep = d[4 * i];
    let hstep = hstep_of(vstep, d[4 * i + 2]);
    &&& -1 <= vstep <= 1
    &&& start_lo(vstep, len) <= d[4 * i + 1] < start_hi(vstep, len, height)
    &&& if vstep != 0 {
        -1 <= d[4 * i + 2] <= 1
    } else {
        0 <= d[4 * i + 2] <= 1
    }
    &&& start_lo(hstep, len) <= d[4 * i + 3] < start_hi(hstep, len, width)
}

/// The placement that the four draws of one attempt stand for.
pub open spec fn placement_of(d: Seq<int>) -> Placement {
    attempt_at(d, 0)
}

/// The number of attempts that ask for a crossing.
pub open spec fn crossing_budget(width: nat, height: nat) -> nat {
    width * height
}

/// The number of attempts that a word is given in all: those that ask for a
/// crossing, then `width + height` that do not.
pub open spec fn attempt_budget(width: nat, height: nat) -> nat {
    width * height + width + height
}

/// What one attempt does: its four draws `d` name a placement in the ranges
/// of its direction; the word is written there exactly if it may be, and
/// otherwise the board stays as it was.
pub open spec fn attempt_outcome(
    before: Cells,
    after: Cells,
    letters: Seq<char>,
    d: Seq<int>,
    width: nat,
    height: nat,
    need_shared: bool,
    placed: bool,
) -> bool {
    &&& d.len() == 4
    &&& in_range_draws(d, 0, letters.len(), width, height)
    &&& placement_of(d).admissible(letters.len(), width, height)
    &&& placed == placeable(before, letters, placement_of(d), need_shared)
    &&& placed ==> inscribed(before, after, letters, placement_of(d))
    &&& !placed ==> after == before
}

/// Draws the start of a span of `len` cells along `step` on an axis of
/// `extent` cells.
fn draw_start(rng: &mut RandomStream, step: i32, len: usize, extent: usize) -> (start: usize)
    requires
        -1 <= step <= 1,
        len <= extent,
        extent > 0,
    ensures
        start_lo(step as int, len as nat) <= start < start_hi(step as int, len as nat, extent as nat),
        final(rng).drawn() == old(rng).drawn().push(start as int),
{
    let lo = if step == -1 && len >= 1 {
        len - 1
    } else {
        0
    };
    let hi = if step == 1 {
        if len < extent {
            extent - len
        } else {
            1
        }
    } else {
        extent
    };
    rng.next_in_range(lo, hi)
}

/// Draws a placement for a word of `len` letters on a board of `width` by
/// `height` cells.
pub fn draw_placement(rng: &mut RandomStream, len: usize, width: usize, height: usize) -> (p:
    Placement)
    requires
        0 < width,
        0 < height,
        len <= width,
        len <= height,
    ensures
        old(rng).drawn().is_prefix_of(final(rng).drawn()),
        drawn_since(old(rng).drawn(), final(rng).drawn()).len() == 4,
        in_range_draws(
            drawn_since(old(rng).drawn(), final(rng).drawn()),
            0,
            len as nat,
            width as nat,
            height as nat,
        ),
        p == placement_of(drawn_since(old(rng).drawn(), final(rng).drawn())),
        p.admissible(len as nat, width as nat, height as nat),
        p.within(len as nat, width as nat, height as nat),
{
    let ghost start = rng.drawn();
    let vstep = rng.next_step(-1, 1);
    let row = draw_start(rng, vstep, len, height);
    let hstep = if vstep != 0 {
        rng.next_step(-1, 1)
    } else {
        rng.next_step(0, 1) * 2 - 1
    };
    let col = draw_start(rng, hstep, len, width);
    let p = Placement { vstep, hstep, row, col };
    proof {
        let d = drawn_since(start, rng.drawn());
        assert(rng.drawn() =~= start.push(vstep as int).push(row as int).push(d[2]).push(
            col as int,
        ));
        assert(d =~= seq![vstep as int, row as int, d[2], col as int]);
        assert(hstep == hstep_of(vstep as int, d[2]));
        lemma_admissible_within(p, len as nat, width as nat, height as nat);
    }
    p
}

/// Makes one attempt at placing `letters`, and says whether it wrote them.
pub fn try_place(grid: &mut Grid, rng: &mut RandomStream, letters: &[char], need_shared: bool) -> (placed:
    bool)
    requires
        old(grid).wf(),
        letters@.len() <= old(grid).width(),
        letters@.len() <= old(grid).height(),
    ensures
        final(grid).wf(),
        final(grid).width() == old(grid).width(),
        final(grid).height() == old(grid).height(),
        old(rng).drawn().is_prefix_of(final(rng).drawn()),
        attempt_outcome(
            old(grid)@,
            final(grid)@,
            letters@,
            drawn_since(old(rng).drawn(), final(rng).drawn()),
            old(grid).width() as nat,
            old(grid).height() as nat,
            need_shared,
            placed,
        ),
        keeps_letters(old(grid)@, final(grid)@),
{
    proof {
        grid.lemma_wf_shape();
    }
    let p = draw_placement(rng, letters.len(), grid.width(), grid.height());
    place_at(grid, letters, p, need_shared)
}

/// What the search for a place does with the draws `d`: it makes attempts of
/// four draws each, the first `width * height` of them asking for a crossing,
/// and stops at the first that may be written, or when the budget is spent.
/// Every attempt before the last was refused; the last one decides.
pub open spec fn search_outcome(
    before: Cells,
    after: Cells,
    letters: Seq<char>,
    d: Seq<int>,
    width: nat,
    height: nat,
    placed: bool,
) -> bool {
    let k = d.len() / 4;
    let last = k - 1;
    &&& d.len() == 4 * k
    &&& 1 <= k <= attempt_budget(width, height)
    &&& forall|i: int| 0 <= i < k ==> #[trigger] in_range_draws(d, i, letters.len(), width, height)
    &&& forall|i: int|
        0 <= i < k ==> (#[trigger] attempt_at(d, i)).admissible(letters.len(), width, height)
    &&& forall|i: int|
        0 <= i < last ==> !placeable(
            before,
            letters,
            #[trigger] attempt_at(d, i),
            i < crossing_budget(width, height),
        )
    &&& placed == placeable(before, letters, attempt_at(d, last), last < crossing_budget(width, height))
    &&& placed ==> inscribed(before, after, letters, attempt_at(d, last))
    &&& !placed ==> after == before && k == attempt_budget(width, height)
}

/// Searches a place for `letters` and writes them there: up to `width *
/// height` attempts that ask for a crossing, then up to `width + height` that
/// do not. Says whether the word was written.
pub fn place_word(grid: &mut Grid, rng: &mut RandomStream, letters: &[char]) -> (placed: bool)
    requires
        old(grid).wf(),
        letters@.len() <= old(grid).width(),
        letters@.len() <= old(grid).height(),
    ensures
        final(grid).wf(),
        final(grid).width() == old(grid).width(),
        final(grid).height() == old(grid).height(),
        old(rng).drawn().is_prefix_of(final(rng).drawn()),
        search_outcome(
            old(grid)@,
            final(grid)@,
            letters@,
            drawn_since(old(rng).drawn(), final(rng).drawn()),
            old(grid).width() as nat,
            old(grid).height() as nat,
            placed,
        ),
        keeps_letters(old(grid)@, final(grid)@),
{
    let ghost before = grid@;
    let ghost start = rng.drawn();
    let ghost width = grid.width() as nat;
    let ghost height = grid.height() as nat;
    proof {
        grid.lemma_wf_shape();
        assert(width * height <= usize::MAX * usize::MAX) by (nonlinear_arith)
            requires
                width <= usize::MAX,
                height <= usize::MAX,
        ;
        assert(usize::MAX * usize::MAX <= 0xffff_ffff_ffff_ffff * 0xffff_ffff_ffff_ffff)
            by (nonlinear_arith);
    }
    let crossing: u128 = (grid.width() as u128) * (grid.height() as u128);
    let total: u128 = crossing + (grid.width() as u128) + (grid.height() as u128);
    let mut k: u128 = 0;
    while k < total
        invariant
            k <= total,
            crossing == crossing_budget(width, height),
            total == attempt_budget(width, height),
            total >= 1,
            grid.wf(),
            grid.width() == width,
            grid.height() == height,
            letters@.len() <= width,
            letters@.len() <= height,
            grid@ == before,
            before == old(grid)@,
            start == old(rng).drawn(),
            width == old(grid).width(),
            height == old(grid).height(),
            start.is_prefix_of(rng.drawn()),
            drawn_since(start, rng.drawn()).len() == 4 * k,
            forall|i: int|
                0 <= i < k ==> (#[trigger] attempt_at(drawn_since(start, rng.drawn()), i)).admissible(
                    letters@.len(),
                    width,
                    height,
                ),
            forall|i: int|
                0 <= i < k ==> #[trigger] in_range_draws(
                    drawn_since(start, rng.drawn()),
                    i,
                    letters@.len(),
                    width,
                    height,
                ),
            forall|i: int|
                0 <= i < k ==> !placeable(
                    before,
                    letters@,
                    #[trigger] attempt_at(drawn_since(start, rng.drawn()), i),
                    i < crossing_budget(width, height),
                ),
        decreases total - k,
    {
        let ghost d0 = drawn_since(start, rng.drawn());
        let ghost mid = rng.drawn();
        let placed = try_place(grid, rng, letters, k < crossing);
        proof {
            let d1 = drawn_since(start, rng.drawn());
            let a = drawn_since(mid, rng.drawn());
            assert(d1 =~= d0 + a);
            assert(attempt_at(d1, k as int) == attempt_at(a, 0));
            assert forall|i: int| 0 <= i < k implies #[trigger] attempt_at(d1, i) == attempt_at(
                d0,
                i,
            ) by {}
            assert forall|i: int| 0 <= i < k + 1 implies #[trigger] in_range_draws(
                d1,
                i,
                letters@.len(),
                width,
                height,
            ) by {
                if i < k {
                    assert(in_range_draws(d0, i, letters@.len(), width, height));
                } else {
                    assert(in_range_draws(a, 0, letters@.len(), width, height));
                }
            }
            assert(start.is_prefix_of(rng.drawn()));
        }
        k += 1;
        if placed {
            return true;
        }
    }
    false
}


} // verus!
