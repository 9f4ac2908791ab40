//! The casing pattern of a word: how it is read off a word's first two
//! characters, and how it is put on another word.

use crate::unicode::{
    is_lowercase_char, lowercase_char, lowercase_of, lowercase_of_char, uppercase_char,
    uppercase_of, uppercase_of_char,
};
use vstd::prelude::*;
use vstd::std_specs::iter::IteratorSpec;
use vstd::string::*;

verus! {

/// How the letters of a word are capitalised.
#[derive(Clone, Copy, Debug, PartialEq, Eq, Structural)]
pub enum Casing {
    Lowercase,
    Titlecase,
    Uppercase,
}

/// Whether the character at `at` is lowercase. A word too short to have one
/// counts as if a lowercase letter stood there.
pub open spec fn lower_at(word: Seq<char>, at: int) -> bool {
    word.len() <= at || is_lowercase_char(word[at])
}

/// The lowercase mappings of the characters of `word`, one after the other.
pub open spec fn lowercase_each(word: Seq<char>) -> Seq<char>
    decreases word.len(),
{
    if word.len() == 0 {
        Seq::empty()
    } else {
        lowercase_each(word.drop_last()) + lowercase_of_char(word.last())
    }
}

/// Whether the case conversions bring the start of `word` into `pattern`:
/// for `Lowercase` and `Uppercase`, the converted text begins as the pattern
/// asks; for `Titlecase`, the first character has an uppercase mapping of one
/// character that is not lowercase, and the lowercase mapping of the second,
/// where there is one, begins with a lowercase character.
pub open spec fn converts_into(pattern: Casing, word: Seq<char>) -> bool {
    match pattern {
        Casing::Lowercase => lower_at(lowercase_of(word), 0),
        Casing::Uppercase => !lower_at(uppercase_of(word), 0) && !lower_at(uppercase_of(word), 1),
        Casing::Titlecase => {
            &&& word.len() >= 1
            &&& uppercase_of_char(word[0]).len() == 1
            &&& !is_lowercase_char(uppercase_of_char(word[0])[0])
            &&& word.len() >= 2 ==> lowercase_of_char(word[1]).len() >= 1 && is_lowercase_char(
                lowercase_of_char(word[1])[0],
            )
        },
    }
}

/// The lowercase mappings of a word's characters begin with that of its
/// first character.
pub proof fn lemma_lowercase_each_unfolds_at_front(word: Seq<char>)
    requires
        word.len() >= 1,
    ensures
        lowercase_each(word) == lowercase_of_char(word[0]) + lowercase_each(word.skip(1)),
    decreases word.len(),
{
    if word.len() == 1 {
        assert(word.drop_last() =~= Seq::<char>::empty());
        assert(word.skip(1) =~= Seq::<char>::empty());
        assert(lowercase_each(word) =~= lowercase_of_char(word[0]) + lowercase_each(
            word.skip(1),
        ));
    } else {
        lemma_lowercase_each_unfolds_at_front(word.drop_last());
        assert(word.drop_last().skip(1) =~= word.skip(1).drop_last());
        assert(lowercase_each(word) =~= lowercase_of_char(word[0]) + lowercase_each(
            word.skip(1),
        ));
    }
}

/// A word written in a pattern has that pattern, wherever the case
/// conversions bring its start into the pattern.
pub proof fn lemma_applied_has_pattern(pattern: Casing, word: Seq<char>)
    requires
        converts_into(pattern, word),
    ensures
        Casing::of_word(pattern.applied(word)) == pattern,
{
    if pattern == Casing::Titlecase {
        let head = uppercase_of_char(word[0]);
        let tail = lowercase_each(word.skip(1));
        let text = pattern.applied(word);
        assert(text == head + tail);
        assert(text[0] == head[0]);
        if word.len() >= 2 {
            lemma_lowercase_each_unfolds_at_front(word.skip(1));
            assert(word.skip(1)[0] == word[1]);
            assert(tail[0] == lowercase_of_char(word[1])[0]);
            assert(text[1] == tail[0]);
        } else {
            assert(word.skip(1) =~= Seq::<char>::empty());
            assert(text.len() == 1);
        }
    }
}

/// Writing a word in its own pattern keeps the pattern, wherever the case
/// conversions bring the word's start into that pattern.
pub proof fn lemma_own_pattern_survives(word: Seq<char>)
    requires
        converts_into(Casing::of_word(word), word),
    ensures
        Casing::of_word(Casing::of_word(word).applied(word)) == Casing::of_word(word),
{
    lemma_applied_has_pattern(Casing::of_word(word), word);
}

impl Casing {
    /// The pattern of a word whose first character is lowercase or missing
    /// when `first_lower` holds, and whose second is when `second_lower` does.
    pub open spec fn of_leading(first_lower: bool, second_lower: bool) -> Casing {
        if first_lower {
            Casing::Lowercase
        } else if second_lower {
            Casing::Titlecase
        } else {
            Casing::Uppercase
        }
    }

    /// The pattern of a word. Only its first two characters count.
    pub open spec fn of_word(word: Seq<char>) -> Casing {
        Casing::of_leading(lower_at(word, 0), lower_at(word, 1))
    }

    /// The text of `word` in this pattern.
    pub open spec fn applied(self, word: Seq<char>) -> Seq<char> {
        match self {
            Casing::Lowercase => lowercase_of(word),
            Casing::Uppercase => uppercase_of(word),
            Casing::Titlecase => if word.len() == 0 {
                Seq::empty()
            } else {
                uppercase_of_char(word[0]) + lowercase_each(word.skip(1))
            },
        }
    }

    /// Decides the pattern from what is known of the first two characters.
    pub fn from_leading(first_lower: bool, second_lower: bool) -> (pattern: Casing)
        ensures
            pattern == Casing::of_leading(first_lower, second_lower),
    {
        if first_lower {
            Casing::Lowercase
        } else if second_lower {
            Casing::Titlecase
        } else {
            Casing::Uppercase
        }
    }

    /// Reads the pattern off a word.
    pub fn classify(word: &str) -> (pattern: Casing)
        ensures
            pattern == Casing::of_word(word@),
    {
        broadcast use group_string_axioms;

        let mut rest = word.chars();
        let first_lower = match rest.next() {
            Some(c) => c.is_lowercase(),
            None => true,
        };
        let second_lower = match rest.next() {
            Some(c) => c.is_lowercase(),
            None => true,
        };
        Casing::from_leading(first_lower, second_lower)
    }

    /// Writes `word` in this pattern.
    pub fn apply(&self, word: &str) -> (text: String)
        ensures
            text@ == self.applied(word@),
    {
        broadcast use group_string_axioms;

        match self {
            Casing::Lowercase => word.to_lowercase(),
            Casing::Uppercase => word.to_uppercase(),
            Casing::Titlecase => {
                let mut text = String::new();
                let mut rest = word.chars();
                match rest.next() {
                    Some(c) => {
                        let head = uppercase_char(c);
                        text.append(head.as_str());
                    },
                    None => {
                        return text;
                    },
                }
                let ghost mut done: Seq<char> = Seq::empty();
                loop
                    invariant
                        word@.len() > 0,
                        done + rest.remaining() == word@.skip(1),
                        text@ == uppercase_of_char(word@[0]) + lowercase_each(done),
                        rest.obeys_prophetic_iter_laws(),
                        rest.decrease() is Some,
                    ensures
                        text@ == uppercase_of_char(word@[0]) + lowercase_each(word@.skip(1)),
                    decreases rest.decrease()->0,
                {
                    match rest.next() {
                        Some(c) => {
                            let lowered = lowercase_char(c);
                            text.append(lowered.as_str());
                            proof {
                                assert(done.push(c).drop_last() =~= done);
                                done = done.push(c);
                                assert(done + rest.remaining() =~= word@.skip(1));
                                assert(text@ =~= uppercase_of_char(word@[0]) + lowercase_each(
                                    done,
                                ));
                            }
                        },
                        None => {
                            assert(done =~= word@.skip(1));
                            break ;
                        },
                    }
                }
                text
            },
        }
    }
}

} // verus!
