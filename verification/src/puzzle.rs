//! The puzzle under construction: a square board, the stream of draws, and the
//! words that found a place.
//!
//! A puzzle is built in two stages. While it is open, words are added one at a
//! time; each is folded to upper case and searched a place for. The fill then
//! closes it: every blank cell gets a letter of the alphabet, and from then on
//! no word is accepted.

use vstd::prelude::*;
use vstd::string::*;
use crate::fill::{fill_blanks, fill_outcome};
use crate::grid::{Cells, Grid, blank_free, has_letter, keeps_letters, rectangular};
use crate::random::RandomStream;
use crate::search::{attempt_outcome, drawn_since, place_word, search_outcome, try_place};
use crate::text::{texts, to_upper, uppercase_of, wide_chars};

verus! {

/// Two puzzles show the same thing: the same board, the same words placed,
/// the same draws made, and both open or both closed.
pub open spec fn agree(a: WordSearch, b: WordSearch) -> bool {
    &&& a.spec_size() == b.spec_size()
    &&& a.cells() == b.cells()
    &&& a.placed() == b.placed()
    &&& a.drawn() == b.drawn()
    &&& a.spec_is_filled() == b.spec_is_filled()
}

/// What adding the word `word`, taken as it is written, does to a puzzle.
///
/// A closed puzzle, and a word longer than the side of the board, are turned
/// away before anything is drawn. Any other word is searched a place for. The
/// word is recorded exactly if it was written onto the board.
pub open spec fn add_outcome(pre: WordSearch, post: WordSearch, word: Seq<char>, placed: bool) -> bool {
    let size = pre.spec_size() as nat;
    let refused = pre.spec_is_filled() || word.len() > size;
    &&& post.spec_size() == pre.spec_size()
    &&& post.spec_is_filled() == pre.spec_is_filled()
    &&& pre.drawn().is_prefix_of(post.drawn())
    &&& refused ==> !placed && post.drawn() == pre.drawn() && post.cells() == pre.cells()
    &&& !refused ==> search_outcome(
        pre.cells(),
        post.cells(),
        word,
        drawn_since(pre.drawn(), post.drawn()),
        size,
        size,
        placed,
    )
    &&& post.placed() == if placed {
        pre.placed().push(word)
    } else {
        pre.placed()
    }
}

/// A word-search puzzle under construction.
pub struct WordSearch {
    grid: Grid,
    rng: RandomStream,
    added: Vec<String>,
    filled: bool,
}

impl WordSearch {
    /// The board is a well-formed square, and a closed puzzle has no blank.
    pub closed spec fn wf(&self) -> bool {
        &&& self.grid.wf()
        &&& self.grid.width() == self.grid.height()
        &&& self.filled ==> blank_free(self.grid@)
    }

    /// The board.
    pub closed spec fn cells(&self) -> Cells {
        self.grid@
    }

    /// The side of the board.
    pub closed spec fn spec_size(&self) -> usize {
        self.grid.width()
    }

    /// The words that were placed, in the order in which they were placed.
    pub closed spec fn placed(&self) -> Seq<Seq<char>> {
        texts(self.added@)
    }

    /// The values drawn so far, oldest first.
    pub closed spec fn drawn(&self) -> Seq<int> {
        self.rng.drawn()
    }

    /// Whether the fill has closed the puzzle.
    pub closed spec fn spec_is_filled(&self) -> bool {
        self.filled
    }

    /// What `wf` says of the board, for callers that cannot see the fields.
    pub proof fn lemma_wf_shape(&self)
        requires
            self.wf(),
        ensures
            self.spec_size() > 0,
            rectangular(self.cells(), self.spec_size() as nat, self.spec_size() as nat),
            self.spec_is_filled() ==> blank_free(self.cells()),
    {
        self.grid.lemma_wf_shape();
    }

    /// An open puzzle on a blank board of `sz` by `sz` cells, with a stream
    /// seeded with `seed`.
    pub fn new(sz: usize, seed: u64) -> (ws: WordSearch)
        requires
            sz > 0,
        ensures
            ws.wf(),
            ws.spec_size() == sz,
            forall|r: int, c: int| 0 <= r < sz && 0 <= c < sz ==> (#[trigger] ws.cells()[r][c]).is_none(),
            !has_letter(ws.cells()),
            ws.placed() == Seq::<Seq<char>>::empty(),
            ws.drawn() == Seq::<int>::empty(),
            !ws.spec_is_filled(),
    {
        let ws = WordSearch {
            grid: Grid::new(sz, sz),
            rng: RandomStream::new(seed),
            added: Vec::new(),
            filled: false,
        };
        assert(ws.placed() =~= Seq::<Seq<char>>::empty());
        ws
    }

    /// The side of the board.
    #[verifier::when_used_as_spec(spec_size)]
    pub fn size(&self) -> (sz: usize)
        ensures
            sz == self.spec_size(),
    {
        self.grid.width()
    }

    /// Whether the fill has closed the puzzle.
    #[verifier::when_used_as_spec(spec_is_filled)]
    pub fn is_filled(&self) -> (b: bool)
        ensures
            b == self.spec_is_filled(),
    {
        self.filled
    }

    /// The cell in row `r`, column `c`: a letter, or `None` for a blank.
    pub fn cell(&self, r: usize, c: usize) -> (cell: Option<char>)
        requires
            self.wf(),
            r < self.size(),
            c < self.size(),
        ensures
            cell == self.cells()[r as int][c as int],
    {
        self.grid.get(r, c)
    }

    /// The words that were placed, in the order in which they were placed.
    pub fn placed_words(&self) -> (words: &Vec<String>)
        ensures
            texts(words@) == self.placed(),
    {
        &self.added
    }

    /// Makes one attempt at placing `letters`, without recording a word.
    pub fn try_add_word(&mut self, letters: &[char], need_shared: bool) -> (placed: bool)
        requires
            old(self).wf(),
            letters@.len() <= old(self).size(),
        ensures
            final(self).wf(),
            final(self).size() == old(self).size(),
            final(self).is_filled() == old(self).is_filled(),
            final(self).placed() == old(self).placed(),
            old(self).drawn().is_prefix_of(final(self).drawn()),
            attempt_outcome(
                old(self).cells(),
                final(self).cells(),
                letters@,
                drawn_since(old(self).drawn(), final(self).drawn()),
                old(self).size() as nat,
                old(self).size() as nat,
                need_shared,
                placed,
            ),
            keeps_letters(old(self).cells(), final(self).cells()),
    {
        proof {
            self.grid.lemma_wf_shape();
        }
        let placed = try_place(&mut self.grid, &mut self.rng, letters, need_shared);
        proof {
            self.grid.lemma_wf_shape();
            lemma_keeps_blank_free(old(self).grid@, self.grid@);
        }
        placed
    }
    /// Adds `word` as it is written: searches a place for its characters and
    /// records the word if it was written onto the board.
    pub fn add_verbatim(&mut self, word: String) -> (placed: bool)
        requires
            old(self).wf(),
        ensures
            final(self).wf(),
            add_outcome(*old(self), *final(self), word@, placed),
            keeps_letters(old(self).cells(), final(self).cells()),
    {
        proof {
            self.grid.lemma_wf_shape();
        }
        if self.filled {
            return false;
        }
        let letters = wide_chars(word.as_str());
        if letters.len() > self.grid.width() {
            return false;
        }
        let placed = place_word(&mut self.grid, &mut self.rng, letters.as_slice());
        if placed {
            let ghost earlier = self.added@;
            self.added.push(word);
            assert(texts(self.added@) =~= texts(earlier).push(word@));
        }
        placed
    }

    /// Adds `word`, folded to upper case, and says whether it found a place.
    ///
    /// The word is given up to `size * size` attempts that ask for a crossing
    /// with a letter already on the board, then up to `2 * size` attempts that
    /// do not. A word longer than the side of the board is turned away at
    /// once, and so is every word once the fill has closed the puzzle; neither
    /// costs a draw. The words are recorded in upper case, in the order in
    /// which they were placed.
    ///
    /// A word with no letters has an empty span: it is placed by the first
    /// attempt that asks for no crossing, and leaves no trace on the board.
    pub fn add_word(&mut self, word: String) -> (placed: bool)
        requires
            old(self).wf(),
        ensures
            final(self).wf(),
            add_outcome(*old(self), *final(self), uppercase_of(word@), placed),
            keeps_letters(old(self).cells(), final(self).cells()),
    {
        let upper = to_upper(word.as_str());
        self.add_verbatim(upper)
    }

    /// Closes the puzzle: every blank cell gets a letter of `noize`, drawn
    /// from the stream, row by row from the top and each row from the left.
    pub fn fill_random(&mut self, noize: String)
        requires
            old(self).wf(),
            noize@.len() > 0,
        ensures
            final(self).wf(),
            final(self).size() == old(self).size(),
            final(self).is_filled(),
            final(self).placed() == old(self).placed(),
            old(self).drawn().is_prefix_of(final(self).drawn()),
            fill_outcome(
                old(self).cells(),
                final(self).cells(),
                noize@,
                drawn_since(old(self).drawn(), final(self).drawn()),
            ),
            blank_free(final(self).cells()),
            keeps_letters(old(self).cells(), final(self).cells()),
    {
        let syms = wide_chars(noize.as_str());
        fill_blanks(&mut self.grid, &mut self.rng, syms.as_slice());
        self.filled = true;
    }
}

/// A board that keeps its letters stays free of blanks.
pub proof fn lemma_keeps_blank_free(before: Cells, after: Cells)
    requires
        keeps_letters(before, after),
    ensures
        blank_free(before) ==> blank_free(after),
{
    if blank_free(before) {
        assert forall|r: int, c: int|
            0 <= r < after.len() && 0 <= c < after[r].len() implies (#[trigger] after[r][c]).is_some() by {
            assert(before[r][c].is_some());
        }
    }
}

} // verus!
