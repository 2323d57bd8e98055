//! The board: a rectangle of cells, each blank or holding one letter.

use vstd::prelude::*;

verus! {

/// The mathematical picture of a board: its rows from top to bottom, each a
/// sequence of cells from left to right. `None` is a blank cell.
pub type Cells = Seq<Seq<Option<char>>>;

/// Every row of `cells` has `width` cells and there are `height` rows.
pub open spec fn rectangular(cells: Cells, width: nat, height: nat) -> bool {
    &&& cells.len() == height
    &&& forall|r: int| 0 <= r < cells.len() ==> (#[trigger] cells[r]).len() == width
}

/// Some cell of `cells` holds a letter.
pub open spec fn has_letter(cells: Cells) -> bool {
    exists|r: int, c: int|
        0 <= r < cells.len() && 0 <= c < cells[r].len() && (#[trigger] cells[r][c]).is_some()
}

/// No cell of `cells` is blank.
pub open spec fn blank_free(cells: Cells) -> bool {
    forall|r: int, c: int|
        0 <= r < cells.len() && 0 <= c < cells[r].len() ==> (#[trigger] cells[r][c]).is_some()
}

/// `after` has the shape of `before` and every letter of `before` is still in
/// its cell: cells only ever go from blank to a letter.
pub open spec fn keeps_letters(before: Cells, after: Cells) -> bool {
    &&& after.len() == before.len()
    &&& forall|r: int| 0 <= r < before.len() ==> (#[trigger] after[r]).len() == before[r].len()
    &&& forall|r: int, c: int|
        0 <= r < before.len() && 0 <= c < before[r].len() && before[r][c].is_some() ==> (
        #[trigger] after[r][c]) == before[r][c]
}

/// A board of `width` columns and `height` rows.
pub struct Grid {
    width: usize,
    height: usize,
    cells: Vec<Vec<Option<char>>>,
    occupied: bool,
}

impl View for Grid {
    type V = Cells;

    closed spec fn view(&self) -> Cells {
        Seq::new(self.cells@.len(), |r: int| self.cells@[r]@)
    }
}

impl Grid {
    /// The number of columns.
    pub closed spec fn spec_width(&self) -> usize {
        self.width
    }

    /// The number of rows.
    pub closed spec fn spec_height(&self) -> usize {
        self.height
    }

    /// The board is a non-empty rectangle, and it knows whether it holds a letter.
    pub closed spec fn wf(&self) -> bool {
        &&& self.width > 0
        &&& self.height > 0
        &&& rectangular(self@, self.width as nat, self.height as nat)
        &&& self.occupied == has_letter(self@)
    }

    /// What `wf` says of the view, for callers that cannot see the fields.
    pub proof fn lemma_wf_shape(&self)
        requires
            self.wf(),
        ensures
            self.spec_width() > 0,
            self.spec_height() > 0,
            rectangular(self@, self.spec_width() as nat, self.spec_height() as nat),
    {
    }

    /// A blank board of `width` columns and `height` rows.
    pub fn new(width: usize, height: usize) -> (g: Grid)
        requires
            width > 0,
            height > 0,
        ensures
            g.wf(),
            g.spec_width() == width,
            g.spec_height() == height,
            forall|r: int, c: int| 0 <= r < height && 0 <= c < width ==> (#[trigger] g@[r][c]).is_none(),
            !has_letter(g@),
    {
        let mut cells: Vec<Vec<Option<char>>> = Vec::new();
        let mut r: usize = 0;
        while r < height
            invariant
                r <= height,
                cells@.len() == r,
                forall|i: int| 0 <= i < r ==> (#[trigger] cells@[i])@.len() == width,
                forall|i: int, j: int| 0 <= i < r && 0 <= j < width ==> (#[trigger] cells@[i]@[j]).is_none(),
            decreases height - r,
        {
            let mut row: Vec<Option<char>> = Vec::new();
            let mut c: usize = 0;
            while c < width
                invariant
                    c <= width,
                    row@.len() == c,
                    forall|j: int| 0 <= j < c ==> (#[trigger] row@[j]).is_none(),
                decreases width - c,
            {
                row.push(None);
                c += 1;
            }
            cells.push(row);
            r += 1;
        }
        Grid { width, height, cells, occupied: false }
    }

    /// The number of columns.
    #[verifier::when_used_as_spec(spec_width)]
    pub fn width(&self) -> (w: usize)
        ensures
            w == self.spec_width(),
    {
        self.width
    }

    /// The number of rows.
    #[verifier::when_used_as_spec(spec_height)]
    pub fn height(&self) -> (h: usize)
        ensures
            h == self.spec_height(),
    {
        self.height
    }

    /// Whether some cell holds a letter.
    pub fn is_occupied(&self) -> (b: bool)
        requires
            self.wf(),
        ensures
            b == has_letter(self@),
    {
        self.occupied
    }

    /// The cell in row `r`, column `c`.
    pub fn get(&self, r: usize, c: usize) -> (cell: Option<char>)
        requires
            self.wf(),
            r < self.spec_height(),
            c < self.spec_width(),
        ensures
            cell == self@[r as int][c as int],
    {
        assert(self@[r as int].len() == self.width);
        self.cells[r][c]
    }

    /// Writes `letter` into the cell in row `r`, column `c`, which is blank
    /// or holds that letter already: no letter is ever replaced by another.
    pub fn set(&mut self, r: usize, c: usize, letter: char)
        requires
            old(self).wf(),
            r < old(self).spec_height(),
            c < old(self).spec_width(),
            old(self)@[r as int][c as int].is_none() || old(self)@[r as int][c as int] == Some(
                letter,
            ),
        ensures
            keeps_letters(old(self)@, final(self)@),
            final(self).wf(),
            final(self).spec_width() == old(self).spec_width(),
            final(self).spec_height() == old(self).spec_height(),
            final(self)@ == old(self)@.update(
                r as int,
                old(self)@[r as int].update(c as int, Some(letter)),
            ),
    {
        assert(self@[r as int].len() == self.width);
        self.cells[r][c] = Some(letter);
        self.occupied = true;
        assert(final(self)@ =~= old(self)@.update(
            r as int,
            old(self)@[r as int].update(c as int, Some(letter)),
        ));
        assert(self@[r as int][c as int].is_some());
    }
}

} // verus!
