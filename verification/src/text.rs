//! Words as letters: case folding and the split of a string into characters.

use vstd::prelude::*;
use widestring::WideString;

verus! {

/// The strings of `words` as sequences of characters.
pub open spec fn texts(words: Seq<String>) -> Seq<Seq<char>> {
    Seq::new(words.len(), |i: int| words[i]@)
}

/// The upper-case form of a string, as the standard library computes it.
pub uninterp spec fn uppercase_of(s: Seq<char>) -> Seq<char>;

/// `str::to_uppercase` of the standard library: the upper-case equivalent of
/// `word` as a new string. The contract only names that result.
#[verifier::external_body]
pub(crate) fn to_upper(word: &str) -> (upper: String)
    ensures
        upper@ == uppercase_of(word@),
{
    word.to_uppercase()
}

/// `WideString::from_str` followed by `chars_lossy` of `widestring`: the text
/// is encoded as a wide string and decoded again, one `char` at a time. A
/// `str` is valid Unicode, so the encoding is valid and nothing is replaced:
/// the characters that come out are those of `text`, in order.
#[verifier::external_body]
pub(crate) fn wide_chars(text: &str) -> (chars: Vec<char>)
    ensures
        chars@ == text@,
{
    WideString::from_str(text).chars_lossy().collect()
}

} // verus!
