//! What holds of every search and every fill, proved from their outcomes.

use vstd::prelude::*;
use crate::fill::{fill_outcome, noise_draw};
use crate::grid::{Cells, blank_free, has_letter, keeps_letters};
use crate::input::{added_in_turn, closes, fresh, run_outcome};
use crate::placement::{Placement, crosses, fits, inscribed, lemma_admissible_within, placeable};
use crate::puzzle::{WordSearch, add_outcome, agree};
use crate::search::{
    attempt_at, attempt_outcome, crossing_budget, drawn_since, placement_of, search_outcome,
};
use crate::text::uppercase_of;

verus! {

/// Writing given letters at a given placement has one result.
pub proof fn lemma_inscribed_unique(
    before: Cells,
    first: Cells,
    second: Cells,
    letters: Seq<char>,
    p: Placement,
)
    requires
        inscribed(before, first, letters, p),
        inscribed(before, second, letters, p),
    ensures
        first == second,
{
    assert forall|r: int| 0 <= r < first.len() implies first[r] =~= second[r] by {
        assert forall|c: int| 0 <= c < first[r].len() implies first[r][c] == second[r][c] by {
            if p.covers(letters.len(), r, c) {
                let i = choose|i: int|
                    0 <= i < letters.len() && #[trigger] p.row_at(i) == r && p.col_at(i) == c;
                assert(first[p.row_at(i)][p.col_at(i)] == Some(letters[i]));
                assert(second[p.row_at(i)][p.col_at(i)] == Some(letters[i]));
            }
        }
    }
    assert(first =~= second);
}

/// Writing letters where they fit overwrites no letter: every cell that held
/// a letter holds the same letter afterwards.
pub proof fn lemma_inscribed_keeps_letters(
    before: Cells,
    after: Cells,
    letters: Seq<char>,
    p: Placement,
)
    requires
        fits(before, letters, p),
        inscribed(before, after, letters, p),
    ensures
        keeps_letters(before, after),
{
    assert forall|r: int, c: int|
        0 <= r < before.len() && 0 <= c < before[r].len() && before[r][c].is_some() implies (
    #[trigger] after[r][c]) == before[r][c] by {
        if p.covers(letters.len(), r, c) {
            let i = choose|i: int|
                0 <= i < letters.len() && #[trigger] p.row_at(i) == r && p.col_at(i) == c;
            assert(after[p.row_at(i)][p.col_at(i)] == Some(letters[i]));
        }
    }
}

/// A cell keeps its letter over any number of steps: if no step overwrites a
/// letter, no two steps together do.
pub proof fn lemma_keeps_letters_transitive(first: Cells, second: Cells, third: Cells)
    requires
        keeps_letters(first, second),
        keeps_letters(second, third),
    ensures
        keeps_letters(first, third),
{
    assert forall|r: int, c: int|
        0 <= r < first.len() && 0 <= c < first[r].len() && first[r][c].is_some() implies (
    #[trigger] third[r][c]) == first[r][c] by {
        assert(second[r][c] == first[r][c]);
        assert(second[r].len() == first[r].len());
    }
    assert forall|r: int| 0 <= r < first.len() implies (#[trigger] third[r]).len()
        == first[r].len() by {
        assert(second[r].len() == first[r].len());
    }
}

/// A search overwrites no letter, whether it places the word or not.
pub proof fn lemma_search_keeps_letters(
    before: Cells,
    after: Cells,
    letters: Seq<char>,
    d: Seq<int>,
    width: nat,
    height: nat,
    placed: bool,
)
    requires
        search_outcome(before, after, letters, d, width, height, placed),
    ensures
        keeps_letters(before, after),
{
    if placed {
        let last = d.len() / 4 - 1;
        lemma_inscribed_keeps_letters(before, after, letters, attempt_at(d, last));
    }
}

/// The span of every attempt of a search, and so that of the placement it
/// commits, lies on the board.
pub proof fn lemma_search_spans_on_board(
    before: Cells,
    after: Cells,
    letters: Seq<char>,
    d: Seq<int>,
    width: nat,
    height: nat,
    placed: bool,
    i: int,
)
    requires
        search_outcome(before, after, letters, d, width, height, placed),
        letters.len() <= width,
        letters.len() <= height,
        0 <= i < d.len() / 4,
    ensures
        attempt_at(d, i).within(letters.len(), width, height),
        forall|j: int|
            0 <= j < letters.len() ==> 0 <= #[trigger] attempt_at(d, i).row_at(j) < height && 0
                <= attempt_at(d, i).col_at(j) < width,
{
    assert(attempt_at(d, i).admissible(letters.len(), width, height));
    lemma_admissible_within(attempt_at(d, i), letters.len(), width, height);
}

/// A word that is placed on a board that holds a letter, by one of the
/// attempts that ask for a crossing, shares a cell with a letter that was
/// there before: some cell of its span held the letter the word has there.
pub proof fn lemma_crossing_honored(
    before: Cells,
    after: Cells,
    letters: Seq<char>,
    d: Seq<int>,
    width: nat,
    height: nat,
    placed: bool,
)
    requires
        search_outcome(before, after, letters, d, width, height, placed),
        placed,
        has_letter(before),
        d.len() / 4 <= crossing_budget(width, height),
    ensures
        crosses(before, letters, attempt_at(d, d.len() / 4 - 1)),
        exists|i: int|
            0 <= i < letters.len() && before[#[trigger] attempt_at(d, d.len() / 4 - 1).row_at(
                i,
            )][attempt_at(d, d.len() / 4 - 1).col_at(i)] == Some(letters[i]),
{
}

/// A word is placed without a crossing only after every attempt that asks
/// for one was refused.
pub proof fn lemma_crossing_tried_first(
    before: Cells,
    after: Cells,
    letters: Seq<char>,
    d: Seq<int>,
    width: nat,
    height: nat,
    placed: bool,
)
    requires
        search_outcome(before, after, letters, d, width, height, placed),
        d.len() / 4 > crossing_budget(width, height),
    ensures
        forall|i: int|
            0 <= i < crossing_budget(width, height) ==> !placeable(
                before,
                letters,
                #[trigger] attempt_at(d, i),
                true,
            ),
{
}

/// One attempt is determined by the board, the word and its four draws: two
/// attempts from the same board with the same draws agree on whether the word
/// is written and leave the same board.
pub proof fn lemma_attempt_deterministic(
    before: Cells,
    letters: Seq<char>,
    d: Seq<int>,
    width: nat,
    height: nat,
    need_shared: bool,
    after1: Cells,
    placed1: bool,
    after2: Cells,
    placed2: bool,
)
    requires
        attempt_outcome(before, after1, letters, d, width, height, need_shared, placed1),
        attempt_outcome(before, after2, letters, d, width, height, need_shared, placed2),
    ensures
        placed1 == placed2,
        after1 == after2,
{
    if placed1 {
        lemma_inscribed_unique(before, after1, after2, letters, placement_of(d));
    }
}

/// A search is determined by the board, the word and the stream of draws: two
/// searches from the same board for the same word that read the same stream
/// make the same draws, agree on whether the word is placed, and leave the
/// same board.
pub proof fn lemma_search_deterministic(
    before: Cells,
    letters: Seq<char>,
    width: nat,
    height: nat,
    stream: Seq<int>,
    d1: Seq<int>,
    after1: Cells,
    placed1: bool,
    d2: Seq<int>,
    after2: Cells,
    placed2: bool,
)
    requires
        search_outcome(before, after1, letters, d1, width, height, placed1),
        search_outcome(before, after2, letters, d2, width, height, placed2),
        d1.is_prefix_of(stream),
        d2.is_prefix_of(stream),
    ensures
        d1 == d2,
        placed1 == placed2,
        after1 == after2,
{
    let k1 = d1.len() / 4;
    let k2 = d2.len() / 4;
    assert forall|i: int| 0 <= i < k1 && i < k2 implies attempt_at(d1, i) == attempt_at(d2, i) by {
        assert(d1[4 * i] == stream[4 * i]);
        assert(d2[4 * i] == stream[4 * i]);
        assert(d1[4 * i + 1] == stream[4 * i + 1]);
        assert(d2[4 * i + 1] == stream[4 * i + 1]);
        assert(d1[4 * i + 2] == stream[4 * i + 2]);
        assert(d2[4 * i + 2] == stream[4 * i + 2]);
        assert(d1[4 * i + 3] == stream[4 * i + 3]);
        assert(d2[4 * i + 3] == stream[4 * i + 3]);
    }
    if k1 < k2 {
        assert(attempt_at(d1, k1 - 1) == attempt_at(d2, k1 - 1));
        assert(!placeable(
            before,
            letters,
            attempt_at(d2, k1 - 1),
            k1 - 1 < crossing_budget(width, height),
        ));
        assert(false);
    }
    if k2 < k1 {
        assert(attempt_at(d1, k2 - 1) == attempt_at(d2, k2 - 1));
        assert(!placeable(
            before,
            letters,
            attempt_at(d1, k2 - 1),
            k2 - 1 < crossing_budget(width, height),
        ));
        assert(false);
    }
    assert(d1 =~= d2) by {
        assert forall|j: int| 0 <= j < d1.len() implies d1[j] == d2[j] by {
            assert(d1[j] == stream[j]);
            assert(d2[j] == stream[j]);
        }
    }
    if placed1 {
        lemma_inscribed_unique(before, after1, after2, letters, attempt_at(d1, k1 - 1));
    }
}

/// After the fill no cell is blank.
pub proof fn lemma_fill_complete(before: Cells, after: Cells, alphabet: Seq<char>, d: Seq<int>)
    requires
        fill_outcome(before, after, alphabet, d),
    ensures
        blank_free(after),
{
    assert forall|r: int, c: int| 0 <= r < after.len() && 0 <= c < after[r].len() implies (
    #[trigger] after[r][c]).is_some() by {
        assert(after[r].len() == before[r].len());
    }
}

/// The fill writes letters of the alphabet only, and only into blank cells:
/// a cell that was blank holds a member of the alphabet afterwards, and a
/// cell that held a letter still holds it.
pub proof fn lemma_fill_respects_alphabet(
    before: Cells,
    after: Cells,
    alphabet: Seq<char>,
    d: Seq<int>,
)
    requires
        fill_outcome(before, after, alphabet, d),
    ensures
        keeps_letters(before, after),
        forall|r: int, c: int|
            0 <= r < before.len() && 0 <= c < before[r].len() && before[r][c].is_none() ==> (
            #[trigger] after[r][c]).is_some() && alphabet.contains(after[r][c].unwrap()),
{
    assert forall|r: int, c: int|
        0 <= r < before.len() && 0 <= c < before[r].len() && before[r][c].is_none() implies (
    #[trigger] after[r][c]).is_some() && alphabet.contains(after[r][c].unwrap()) by {
        let j = noise_draw(before, d, r, c);
        assert(after[r][c] == Some(alphabet[j]));
        assert(0 <= j < alphabet.len());
    }
}

/// A fill is determined by the board, the alphabet and the stream of draws:
/// two fills of the same board from the same alphabet that read the same
/// stream make the same draws and leave the same board.
pub proof fn lemma_fill_deterministic(
    before: Cells,
    alphabet: Seq<char>,
    stream: Seq<int>,
    d1: Seq<int>,
    after1: Cells,
    d2: Seq<int>,
    after2: Cells,
)
    requires
        fill_outcome(before, after1, alphabet, d1),
        fill_outcome(before, after2, alphabet, d2),
        d1.is_prefix_of(stream),
        d2.is_prefix_of(stream),
    ensures
        d1 == d2,
        after1 == after2,
{
    assert(d1 =~= d2) by {
        assert forall|j: int| 0 <= j < d1.len() implies d1[j] == d2[j] by {
            assert(d1[j] == stream[j]);
            assert(d2[j] == stream[j]);
        }
    }
    assert forall|r: int| 0 <= r < after1.len() implies after1[r] =~= after2[r] by {
        assert(after1[r].len() == before[r].len());
        assert(after2[r].len() == before[r].len());
        assert forall|c: int| 0 <= c < after1[r].len() implies after1[r][c] == after2[r][c] by {}
    }
    assert(after1 =~= after2);
}

/// A word that is added lies on the board along one of the eight directions:
/// some placement whose span is on the board fitted the board as it was, and
/// the board is now that board with the word written there.
pub proof fn lemma_added_word_on_board(pre: WordSearch, post: WordSearch, word: Seq<char>)
    requires
        add_outcome(pre, post, word, true),
    ensures
        exists|p: Placement|
            {
                &&& #[trigger] p.within(word.len(), pre.spec_size() as nat, pre.spec_size() as nat)
                &&& fits(pre.cells(), word, p)
                &&& inscribed(pre.cells(), post.cells(), word, p)
            },
{
    let size = pre.spec_size() as nat;
    let d = drawn_since(pre.drawn(), post.drawn());
    let p = attempt_at(d, d.len() / 4 - 1);
    lemma_search_spans_on_board(pre.cells(), post.cells(), word, d, size, size, true, d.len() / 4 - 1);
    assert(p.within(word.len(), size, size));
}

/// A word that is added to a board that holds a letter, within the attempts
/// that ask for a crossing, crosses a letter that was there before.
pub proof fn lemma_added_word_crosses(pre: WordSearch, post: WordSearch, word: Seq<char>)
    requires
        add_outcome(pre, post, word, true),
        has_letter(pre.cells()),
        drawn_since(pre.drawn(), post.drawn()).len() / 4 <= crossing_budget(
            pre.spec_size() as nat,
            pre.spec_size() as nat,
        ),
    ensures
        exists|p: Placement|
            {
                &&& #[trigger] p.within(word.len(), pre.spec_size() as nat, pre.spec_size() as nat)
                &&& crosses(pre.cells(), word, p)
                &&& inscribed(pre.cells(), post.cells(), word, p)
            },
{
    let size = pre.spec_size() as nat;
    let d = drawn_since(pre.drawn(), post.drawn());
    let p = attempt_at(d, d.len() / 4 - 1);
    lemma_search_spans_on_board(pre.cells(), post.cells(), word, d, size, size, true, d.len() / 4 - 1);
    lemma_crossing_honored(pre.cells(), post.cells(), word, d, size, size, true);
    assert(p.within(word.len(), size, size));
}

/// Adding a word is determined by the puzzle, the word and the stream of
/// draws: from puzzles that agree, two additions of the same word that read
/// the same stream agree on whether the word is placed and end in puzzles
/// that agree.
pub proof fn lemma_add_deterministic(
    pre1: WordSearch,
    post1: WordSearch,
    placed1: bool,
    pre2: WordSearch,
    post2: WordSearch,
    placed2: bool,
    word: Seq<char>,
    stream: Seq<int>,
)
    requires
        add_outcome(pre1, post1, word, placed1),
        add_outcome(pre2, post2, word, placed2),
        agree(pre1, pre2),
        post1.drawn().is_prefix_of(stream),
        post2.drawn().is_prefix_of(stream),
    ensures
        placed1 == placed2,
        agree(post1, post2),
{
    let size = pre1.spec_size() as nat;
    let refused = pre1.spec_is_filled() || word.len() > size;
    if !refused {
        let n = pre1.drawn().len() as int;
        let d1 = drawn_since(pre1.drawn(), post1.drawn());
        let d2 = drawn_since(pre2.drawn(), post2.drawn());
        let rest = stream.skip(n);
        assert(d1.is_prefix_of(rest));
        assert(d2.is_prefix_of(rest));
        lemma_search_deterministic(
            pre1.cells(),
            word,
            size,
            size,
            rest,
            d1,
            post1.cells(),
            placed1,
            d2,
            post2.cells(),
            placed2,
        );
        assert(post1.drawn() =~= pre1.drawn() + d1);
        assert(post2.drawn() =~= pre2.drawn() + d2);
    }
}

/// Over the adding of any number of words no letter is overwritten: a cell
/// that holds a letter at one stage holds the same letter at every later one.
pub proof fn lemma_additions_keep_letters(
    states: Seq<WordSearch>,
    words: Seq<String>,
    i: int,
    j: int,
)
    requires
        added_in_turn(states, words),
        0 <= i <= j <= words.len(),
    ensures
        keeps_letters(states[i].cells(), states[j].cells()),
    decreases j - i,
{
    if i < j {
        lemma_additions_keep_letters(states, words, i, j - 1);
        let pre = states[j - 1];
        let post = states[j];
        let word = uppercase_of(words[j - 1]@);
        let placed = post.placed().len() > pre.placed().len();
        assert(add_outcome(pre, post, word, placed));
        if !(pre.spec_is_filled() || word.len() > pre.spec_size()) {
            lemma_search_keeps_letters(
                pre.cells(),
                post.cells(),
                word,
                drawn_since(pre.drawn(), post.drawn()),
                pre.spec_size() as nat,
                pre.spec_size() as nat,
                placed,
            );
        }
        lemma_keeps_letters_transitive(states[i].cells(), pre.cells(), post.cells());
    }
}

/// Along a run the stream is only ever read further: what a puzzle had drawn
/// at an earlier stage is the beginning of what it has drawn at the end.
proof fn lemma_draws_accumulate(states: Seq<WordSearch>, words: Seq<String>, i: int)
    requires
        added_in_turn(states, words),
        0 <= i <= words.len(),
    ensures
        states[i].drawn().is_prefix_of(states.last().drawn()),
    decreases words.len() - i,
{
    if i < words.len() {
        lemma_draws_accumulate(states, words, i + 1);
        assert(add_outcome(
            states[i],
            states[i + 1],
            uppercase_of(words[i]@),
            states[i + 1].placed().len() > states[i].placed().len(),
        ));
        let a = states[i].drawn();
        let b = states[i + 1].drawn();
        let c = states.last().drawn();
        assert(a =~= c.subrange(0, a.len() as int)) by {
            assert(b =~= c.subrange(0, b.len() as int));
            assert(a =~= b.subrange(0, a.len() as int));
        }
    }
}

/// Two runs that add the same words in turn to fresh puzzles of the same
/// size, reading the same stream, agree at every stage.
proof fn lemma_stages_agree(
    states1: Seq<WordSearch>,
    states2: Seq<WordSearch>,
    words: Seq<String>,
    size: usize,
    stream: Seq<int>,
    i: int,
)
    requires
        fresh(states1[0], size),
        fresh(states2[0], size),
        added_in_turn(states1, words),
        added_in_turn(states2, words),
        states1.last().drawn().is_prefix_of(stream),
        states2.last().drawn().is_prefix_of(stream),
        0 <= i <= words.len(),
    ensures
        agree(states1[i], states2[i]),
    decreases i,
{
    if i == 0 {
        let a = states1[0].cells();
        let b = states2[0].cells();
        assert forall|r: int| 0 <= r < a.len() implies a[r] =~= b[r] by {
            assert forall|c: int| 0 <= c < a[r].len() implies a[r][c] == b[r][c] by {
                assert(a[r][c].is_none());
                assert(b[r][c].is_none());
            }
        }
        assert(a =~= b);
    } else {
        lemma_stages_agree(states1, states2, words, size, stream, i - 1);
        lemma_draws_accumulate(states1, words, i);
        lemma_draws_accumulate(states2, words, i);
        let j = i - 1;
        assert(add_outcome(
            states1[j],
            states1[j + 1],
            uppercase_of(words[j]@),
            states1[j + 1].placed().len() > states1[j].placed().len(),
        ));
        assert(add_outcome(
            states2[j],
            states2[j + 1],
            uppercase_of(words[j]@),
            states2[j + 1].placed().len() > states2[j].placed().len(),
        ));
        lemma_prefix_transitive(states1[i].drawn(), states1.last().drawn(), stream);
        lemma_prefix_transitive(states2[i].drawn(), states2.last().drawn(), stream);
        lemma_add_deterministic(
            states1[j],
            states1[i],
            states1[i].placed().len() > states1[j].placed().len(),
            states2[j],
            states2[i],
            states2[i].placed().len() > states2[j].placed().len(),
            uppercase_of(words[j]@),
            stream,
        );
    }
}

/// The beginning of a beginning is a beginning.
proof fn lemma_prefix_transitive(a: Seq<int>, b: Seq<int>, c: Seq<int>)
    requires
        a.is_prefix_of(b),
        b.is_prefix_of(c),
    ensures
        a.is_prefix_of(c),
{
    assert(a =~= c.subrange(0, a.len() as int)) by {
        assert(b =~= c.subrange(0, b.len() as int));
        assert(a =~= b.subrange(0, a.len() as int));
    }
}

/// A run is determined by its parameters and the stream of draws: two runs on
/// the same size, alphabet and words that read the same stream end with the
/// same board and the same list of placed words.
pub proof fn lemma_run_deterministic(
    size: usize,
    noize: Seq<char>,
    words: Seq<String>,
    noizeless: bool,
    stream: Seq<int>,
    ws1: WordSearch,
    ws2: WordSearch,
)
    requires
        run_outcome(size, noize, words, noizeless, ws1),
        run_outcome(size, noize, words, noizeless, ws2),
        ws1.drawn().is_prefix_of(stream),
        ws2.drawn().is_prefix_of(stream),
    ensures
        ws1.cells() == ws2.cells(),
        ws1.placed() == ws2.placed(),
        ws1.drawn() == ws2.drawn(),
{
    let states1 = choose|states: Seq<WordSearch>|
        {
            &&& fresh(#[trigger] states[0], size)
            &&& added_in_turn(states, words)
            &&& if noizeless {
                agree(ws1, states.last())
            } else {
                closes(states.last(), ws1, noize)
            }
        };
    let states2 = choose|states: Seq<WordSearch>|
        {
            &&& fresh(#[trigger] states[0], size)
            &&& added_in_turn(states, words)
            &&& if noizeless {
                agree(ws2, states.last())
            } else {
                closes(states.last(), ws2, noize)
            }
        };
    let open1 = states1.last();
    let open2 = states2.last();
    lemma_prefix_transitive(open1.drawn(), ws1.drawn(), stream);
    lemma_prefix_transitive(open2.drawn(), ws2.drawn(), stream);
    lemma_stages_agree(states1, states2, words, size, stream, words.len() as int);
    if !noizeless {
        let n = open1.drawn().len() as int;
        let d1 = drawn_since(open1.drawn(), ws1.drawn());
        let d2 = drawn_since(open2.drawn(), ws2.drawn());
        let rest = stream.skip(n);
        assert(d1.is_prefix_of(rest));
        assert(d2.is_prefix_of(rest));
        lemma_fill_deterministic(open1.cells(), noize, rest, d1, ws1.cells(), d2, ws2.cells());
        assert(ws1.drawn() =~= open1.drawn() + d1);
        assert(ws2.drawn() =~= open2.drawn() + d2);
    }
}


} // verus!
