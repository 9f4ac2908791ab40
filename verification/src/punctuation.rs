//! Parting a word from one trailing punctuation character.

use crate::unicode::is_alphanumeric_char;
use vstd::prelude::*;
use vstd::string::*;

verus! {

/// Whether a word ends in a character that is neither a letter nor a digit.
pub open spec fn ends_in_punctuation(word: Seq<char>) -> bool {
    word.len() > 0 && !is_alphanumeric_char(word.last())
}

/// The word without its trailing punctuation character, if it has one.
pub open spec fn core_of(word: Seq<char>) -> Seq<char> {
    if ends_in_punctuation(word) {
        word.drop_last()
    } else {
        word
    }
}

/// The trailing punctuation character of a word as a text, empty if it has
/// none.
pub open spec fn trailing_of(word: Seq<char>) -> Seq<char> {
    if ends_in_punctuation(word) {
        seq![word.last()]
    } else {
        Seq::empty()
    }
}

/// The two parts of a word make up the word, and the second holds at most
/// one character.
pub proof fn lemma_parts_make_word(word: Seq<char>)
    ensures
        core_of(word) + trailing_of(word) == word,
        trailing_of(word).len() <= 1,
{
    assert(core_of(word) + trailing_of(word) =~= word);
}

/// Parts a word before its last character, whatever that character is. The
/// empty word has nothing to part.
pub fn split_last_char(word: &str) -> (parts: (&str, &str))
    ensures
        word@.len() == 0 ==> parts.0@ == word@ && parts.1@ == Seq::<char>::empty(),
        word@.len() > 0 ==> parts.0@ == word@.drop_last() && parts.1@ == seq![word@.last()],
{
    let count = word.unicode_len();
    if count == 0 {
        let nothing = word.substring_char(0, 0);
        assert(nothing@ =~= Seq::<char>::empty());
        (word, nothing)
    } else {
        let core = word.substring_char(0, count - 1);
        let last = word.substring_char(count - 1, count);
        assert(core@ =~= word@.drop_last());
        assert(last@ =~= seq![word@.last()]);
        (core, last)
    }
}

/// Parts a word from its last character where that is neither a letter nor
/// a digit; any other word is handed back whole, with an empty second part.
pub fn split_punctuation(word: &str) -> (parts: (&str, &str))
    ensures
        parts.0@ == core_of(word@),
        parts.1@ == trailing_of(word@),
{
    let count = word.unicode_len();
    if count == 0 || word.get_char(count - 1).is_alphanumeric() {
        let nothing = word.substring_char(0, 0);
        assert(nothing@ =~= Seq::<char>::empty());
        (word, nothing)
    } else {
        split_last_char(word)
    }
}

} // verus!
