//! The parameters of a puzzle, and the run that turns them into one.

use vstd::prelude::*;
use vstd::string::*;
use crate::fill::fill_outcome;
use crate::grid::{has_letter, rectangular};
use crate::puzzle::{WordSearch, add_outcome, agree};
use crate::search::drawn_since;
use crate::text::{texts, uppercase_of};

verus! {

/// The default alphabet of the fill: the 26 capital letters.
pub fn noize_en() -> (alphabet: String)
    ensures
        alphabet@ == "ABCDEFGHIJKLMNOPQRSTUVWXYZ"@,
        alphabet@.len() == 26,
{
    proof {
        reveal_strlit("ABCDEFGHIJKLMNOPQRSTUVWXYZ");
    }
    String::from_str("ABCDEFGHIJKLMNOPQRSTUVWXYZ")
}

/// The parameters of a puzzle.
#[derive(Debug)]
pub struct WordSearchInput {
    /// The side of the board.
    pub size: usize,
    /// The seed of the random stream.
    pub seed: u64,
    /// The alphabet of the fill.
    pub noize: String,
    /// The words to hide, in the order in which they are tried.
    pub words: Vec<String>,
}

impl Default for WordSearchInput {
    /// A board of side 10, seed 42, the capital letters, and three words.
    fn default() -> (input: WordSearchInput)
        ensures
            input.size == 10,
            input.seed == 42,
            input.noize@ == "ABCDEFGHIJKLMNOPQRSTUVWXYZ"@,
            texts(input.words@) == seq!["EXAMEN"@, "MISTAKE"@, "TEACHER"@],
    {
        let mut words: Vec<String> = Vec::new();
        words.push(String::from_str("EXAMEN"));
        words.push(String::from_str("MISTAKE"));
        words.push(String::from_str("TEACHER"));
        assert(texts(words@) =~= seq!["EXAMEN"@, "MISTAKE"@, "TEACHER"@]);
        WordSearchInput { size: 10, seed: 42, noize: noize_en(), words }
    }
}

/// Why a set of parameters cannot give a puzzle.
#[derive(Clone, Copy, Debug, PartialEq, Eq, Structural)]
pub enum MalformedInput {
    /// The side of the board is zero.
    ZeroSize,
    /// The alphabet of the fill is empty.
    EmptyAlphabet,
    /// There is no word to hide.
    NoWords,
}

/// The fault of the parameters that is reported, if they have one: a zero
/// size before an empty alphabet, and that before an empty list of words.
pub open spec fn fault_of(size: usize, noize: Seq<char>, words: Seq<String>) -> Option<MalformedInput> {
    if size == 0 {
        Some(MalformedInput::ZeroSize)
    } else if noize.len() == 0 {
        Some(MalformedInput::EmptyAlphabet)
    } else if words.len() == 0 {
        Some(MalformedInput::NoWords)
    } else {
        None
    }
}

impl WordSearchInput {
    /// Checks the parameters, before anything is placed.
    pub fn validate(&self) -> (res: Result<(), MalformedInput>)
        ensures
            res == match fault_of(self.size, self.noize@, self.words@) {
                Some(fault) => Err::<(), MalformedInput>(fault),
                None => Ok(()),
            },
    {
        if self.size == 0 {
            Err(MalformedInput::ZeroSize)
        } else if self.noize.as_str().is_empty() {
            Err(MalformedInput::EmptyAlphabet)
        } else if self.words.len() == 0 {
            Err(MalformedInput::NoWords)
        } else {
            Ok(())
        }
    }
}

/// `ws` is a puzzle as `WordSearch::new` makes it: a blank, open board of
/// side `size`, with nothing placed and nothing drawn.
pub open spec fn fresh(ws: WordSearch, size: usize) -> bool {
    &&& ws.spec_size() == size
    &&& rectangular(ws.cells(), size as nat, size as nat)
    &&& !has_letter(ws.cells())
    &&& ws.placed() == Seq::<Seq<char>>::empty()
    &&& ws.drawn() == Seq::<int>::empty()
    &&& !ws.spec_is_filled()
}

/// `states` are the puzzles before, between and after the adding of `words`,
/// each folded to upper case, one after the other.
pub open spec fn added_in_turn(states: Seq<WordSearch>, words: Seq<String>) -> bool {
    &&& states.len() == words.len() + 1
    &&& forall|i: int|
        0 <= i < words.len() ==> add_outcome(
            states[i],
            states[i + 1],
            uppercase_of((#[trigger] words[i])@),
            states[i + 1].placed().len() > states[i].placed().len(),
        )
}

/// `post` is `pre` after the fill with `alphabet`.
pub open spec fn closes(pre: WordSearch, post: WordSearch, alphabet: Seq<char>) -> bool {
    &&& post.spec_size() == pre.spec_size()
    &&& post.spec_is_filled()
    &&& post.placed() == pre.placed()
    &&& pre.drawn().is_prefix_of(post.drawn())
    &&& fill_outcome(pre.cells(), post.cells(), alphabet, drawn_since(pre.drawn(), post.drawn()))
}

/// `ws` is what a run on the given parameters ends in: a fresh puzzle, the
/// words added in turn, and then the fill unless it is left out.
pub open spec fn run_outcome(
    size: usize,
    noize: Seq<char>,
    words: Seq<String>,
    noizeless: bool,
    ws: WordSearch,
) -> bool {
    exists|states: Seq<WordSearch>|
        {
            &&& fresh(#[trigger] states[0], size)
            &&& added_in_turn(states, words)
            &&& if noizeless {
                agree(ws, states.last())
            } else {
                closes(states.last(), ws, noize)
            }
        }
}

/// Runs the generator on `input`: checks the parameters, adds the words in
/// turn to a fresh puzzle and, unless `noizeless`, fills the board. A word
/// that finds no place is left out; only malformed parameters fail the run.
pub fn generate(input: WordSearchInput, noizeless: bool) -> (res: Result<
    WordSearch,
    MalformedInput,
>)
    ensures
        match res {
            Ok(ws) => {
                &&& fault_of(input.size, input.noize@, input.words@).is_none()
                &&& ws.wf()
                &&& run_outcome(input.size, input.noize@, input.words@, noizeless, ws)
            },
            Err(fault) => fault_of(input.size, input.noize@, input.words@) == Some(fault),
        },
{
    match input.validate() {
        Err(fault) => {
            return Err(fault);
        },
        Ok(()) => {},
    }
    let mut ws = WordSearch::new(input.size, input.seed);
    let ghost mut states: Seq<WordSearch> = seq![ws];
    proof {
        ws.lemma_wf_shape();
    }
    let n = input.words.len();
    let mut i: usize = 0;
    while i < n
        invariant
            i <= n,
            n == input.words@.len(),
            ws.wf(),
            states.len() == i + 1,
            states.last() == ws,
            fresh(states[0], input.size),
            forall|j: int|
                0 <= j < i ==> add_outcome(
                    states[j],
                    states[j + 1],
                    uppercase_of((#[trigger] input.words@[j])@),
                    states[j + 1].placed().len() > states[j].placed().len(),
                ),
        decreases n - i,
    {
        let ghost earlier = ws;
        let word = input.words[i].clone();
        let placed = ws.add_word(word);
        proof {
            assert(placed == (ws.placed().len() > earlier.placed().len()));
            states = states.push(ws);
        }
        i += 1;
    }
    let ghost open = ws;
    if !noizeless {
        ws.fill_random(input.noize);
    }
    proof {
        assert(added_in_turn(states, input.words@));
        assert(fresh(states[0], input.size));
        assert(states.last() == open);
    }
    Ok(ws)
}


} // verus!
