//! Translating a word, and a text word by word.

use crate::casing::Casing;
use crate::dictionary::Dictionary;
use crate::picker::{candidate_at, get_pirate_translation, is_pick, pick_at};
use crate::punctuation::{core_of, split_punctuation, trailing_of};
use crate::unicode::lowercase_of;
use vstd::prelude::*;
use vstd::std_specs::iter::IteratorSpec;
use vstd::string::*;

verus! {

/// The word that comes of `word` when `pick` takes the place of its core:
/// the pick in the casing of the core, then the trailing punctuation.
pub open spec fn dressed(word: Seq<char>, pick: Seq<char>) -> Seq<char> {
    Casing::of_word(core_of(word)).applied(pick) + trailing_of(word)
}

/// The word under which the dictionary is asked for `word`: its core in
/// lowercase.
pub open spec fn key_of(word: Seq<char>) -> Seq<char> {
    lowercase_of(core_of(word))
}

/// Whether `out` is a translation of the one word `word`.
pub open spec fn is_word_translation(
    word: Seq<char>,
    dictionary: Map<Seq<char>, Seq<Seq<char>>>,
    out: Seq<char>,
) -> bool {
    exists|pick: Seq<char>| #[trigger]
        is_pick(key_of(word), dictionary, pick) && out == dressed(word, pick)
}

/// The pieces of a text between its spaces. A text with `n` spaces has
/// `n + 1` pieces, some of them empty where spaces meet or stand at an end.
pub open spec fn tokens(text: Seq<char>) -> Seq<Seq<char>>
    decreases text.len(),
{
    if text.len() == 0 {
        seq![Seq::empty()]
    } else {
        let before = tokens(text.drop_last());
        if text.last() == ' ' {
            before.push(Seq::empty())
        } else {
            before.drop_last().push(before.last().push(text.last()))
        }
    }
}

/// The words one after the other, each followed by a space.
pub open spec fn spaced(words: Seq<Seq<char>>) -> Seq<char>
    decreases words.len(),
{
    if words.len() == 0 {
        Seq::empty()
    } else {
        spaced(words.drop_last()) + words.last().push(' ')
    }
}

/// The words one after the other, with a space between neighbours.
pub open spec fn joined(words: Seq<Seq<char>>) -> Seq<char> {
    if words.len() == 0 {
        Seq::empty()
    } else {
        spaced(words.drop_last()) + words.last()
    }
}

/// Whether `out` is the translation of `text` that is made of `words`: one
/// for each piece of `text`, each a translation of its piece, joined by
/// spaces in their order.
pub open spec fn is_translation_by(
    text: Seq<char>,
    dictionary: Map<Seq<char>, Seq<Seq<char>>>,
    out: Seq<char>,
    words: Seq<Seq<char>>,
) -> bool {
    &&& words.len() == tokens(text).len()
    &&& forall|i: int|
        0 <= i < words.len() ==> is_word_translation(
            tokens(text)[i],
            dictionary,
            #[trigger] words[i],
        )
    &&& out == joined(words)
}

/// Whether `out` is a translation of `text`: the pieces of `text`, each
/// translated as a word, joined by spaces in their order.
pub open spec fn is_translation(
    text: Seq<char>,
    dictionary: Map<Seq<char>, Seq<Seq<char>>>,
    out: Seq<char>,
) -> bool {
    exists|words: Seq<Seq<char>>| is_translation_by(text, dictionary, out, words)
}

/// Whether a dictionary leaves nothing to chance: each word that it knows
/// has one candidate.
pub open spec fn offers_no_choice(dictionary: Map<Seq<char>, Seq<Seq<char>>>) -> bool {
    forall|word: Seq<char>| #[trigger]
        dictionary.contains_key(word) ==> dictionary[word].len() == 1
}

/// Under a dictionary that offers no choice, a word has one translation:
/// the one with the candidate at the first position.
pub proof fn lemma_word_without_choice(
    word: Seq<char>,
    dictionary: Map<Seq<char>, Seq<Seq<char>>>,
    out: Seq<char>,
)
    requires
        offers_no_choice(dictionary),
        is_word_translation(word, dictionary, out),
    ensures
        out == dressed(word, candidate_at(key_of(word), dictionary, 0)),
{
    let pick = choose|pick: Seq<char>| #[trigger]
        is_pick(key_of(word), dictionary, pick) && out == dressed(word, pick);
    if dictionary.contains_key(key_of(word)) {
        let at = choose|at: int|
            0 <= at < dictionary[key_of(word)].len() && dictionary[key_of(word)][at] == pick;
        assert(at == 0);
    }
}

/// Under a dictionary that offers no choice, a text has one translation.
pub proof fn lemma_text_without_choice(
    text: Seq<char>,
    dictionary: Map<Seq<char>, Seq<Seq<char>>>,
    first: Seq<char>,
    second: Seq<char>,
)
    requires
        offers_no_choice(dictionary),
        is_translation(text, dictionary, first),
        is_translation(text, dictionary, second),
    ensures
        first == second,
{
    let ones = choose|words: Seq<Seq<char>>| is_translation_by(text, dictionary, first, words);
    let others = choose|words: Seq<Seq<char>>| is_translation_by(text, dictionary, second, words);
    assert forall|i: int| 0 <= i < ones.len() implies ones[i] == others[i] by {
        lemma_word_without_choice(tokens(text)[i], dictionary, ones[i]);
        lemma_word_without_choice(tokens(text)[i], dictionary, others[i]);
    }
    assert(ones =~= others);
}

/// A text has at least one piece, and no piece holds a space.
pub proof fn lemma_tokens_hold_no_space(text: Seq<char>)
    ensures
        tokens(text).len() >= 1,
        forall|i: int, j: int|
            0 <= i < tokens(text).len() && 0 <= j < tokens(text)[i].len() ==> #[trigger] tokens(
                text,
            )[i][j] != ' ',
    decreases text.len(),
{
    if text.len() > 0 {
        lemma_tokens_hold_no_space(text.drop_last());
    }
}

/// Joining the pieces of a text gives the text back.
pub proof fn lemma_joined_tokens_are_text(text: Seq<char>)
    ensures
        joined(tokens(text)) == text,
    decreases text.len(),
{
    if text.len() == 0 {
        assert(tokens(text).drop_last() =~= Seq::<Seq<char>>::empty());
        assert(joined(tokens(text)) =~= text);
    } else {
        let shorter = text.drop_last();
        let before = tokens(shorter);
        lemma_joined_tokens_are_text(shorter);
        lemma_tokens_hold_no_space(shorter);
        if text.last() == ' ' {
            assert(before.push(Seq::empty()).drop_last() =~= before);
            assert(before =~= before.drop_last().push(before.last()));
            assert(spaced(before) == spaced(before.drop_last()) + before.last().push(' '));
            assert(joined(tokens(text)) =~= shorter.push(' '));
            assert(shorter.push(' ') =~= text);
        } else {
            let grown = before.last().push(text.last());
            assert(before.drop_last().push(grown).drop_last() =~= before.drop_last());
            assert(joined(tokens(text)) =~= joined(before) + seq![text.last()]);
            assert(shorter + seq![text.last()] =~= text);
        }
    }
}

/// Translates one word with the candidate at position `draw`: the word's
/// casing goes to the candidate, its trailing punctuation follows unchanged.
pub fn translate_word_at(word: &str, dictionary: &Dictionary, draw: usize) -> (out: String)
    ensures
        out@ == dressed(word@, candidate_at(key_of(word@), dictionary@, draw as int)),
{
    let (core, trailing) = split_punctuation(word);
    let pattern = Casing::classify(core);
    let key = core.to_lowercase();
    let mut out = pattern.apply(pick_at(key.as_str(), dictionary, draw));
    out.append(trailing);
    out
}

/// Translates one word: a candidate drawn at random takes the place of the
/// word's core and its casing, and the trailing punctuation follows
/// unchanged. A word that the dictionary does not know is written anew in
/// its own casing.
pub fn translate_word(word: &str, dictionary: &Dictionary) -> (out: String)
    ensures
        is_word_translation(word@, dictionary@, out@),
        !dictionary@.contains_key(key_of(word@)) ==> out@ == dressed(word@, key_of(word@)),
{
    let (core, trailing) = split_punctuation(word);
    let pattern = Casing::classify(core);
    let key = core.to_lowercase();
    let pick = get_pirate_translation(key.as_str(), dictionary);
    let mut out = pattern.apply(pick);
    out.append(trailing);
    assert(is_pick(key_of(word@), dictionary@, pick@) && out@ == dressed(word@, pick@));
    out
}

/// Translates a text: it is cut at every space, each piece is translated as
/// a word, and the results are joined by spaces in their order.
pub fn translate(text: &str, dictionary: &Dictionary) -> (out: String)
    ensures
        is_translation(text@, dictionary@, out@),
{
    broadcast use group_string_axioms;

    let mut out = String::new();
    let mut token = String::new();
    let mut rest = text.chars();
    let ghost mut done: Seq<char> = Seq::empty();
    let ghost mut words: Seq<Seq<char>> = Seq::empty();
    assert(rest.remaining() =~= text@);
    loop
        invariant
            done + rest.remaining() == text@,
            words.len() + 1 == tokens(done).len(),
            token@ == tokens(done).last(),
            forall|i: int|
                0 <= i < words.len() ==> is_word_translation(
                    tokens(done)[i],
                    dictionary@,
                    #[trigger] words[i],
                ),
            out@ == spaced(words),
            rest.obeys_prophetic_iter_laws(),
            rest.decrease() is Some,
        ensures
            done == text@,
            words.len() + 1 == tokens(done).len(),
            token@ == tokens(done).last(),
            forall|i: int|
                0 <= i < words.len() ==> is_word_translation(
                    tokens(done)[i],
                    dictionary@,
                    #[trigger] words[i],
                ),
            out@ == spaced(words),
        decreases rest.decrease()->0,
    {
        let ghost before = tokens(done);
        match rest.next() {
            Some(c) => {
                proof {
                    assert(done.push(c).drop_last() =~= done);
                    done = done.push(c);
                    assert(done + rest.remaining() =~= text@);
                }
                if c == ' ' {
                    let word = translate_word(token.as_str(), dictionary);
                    out.append(word.as_str());
                    out.push(' ');
                    token = String::new();
                    proof {
                        assert(words.push(word@).drop_last() =~= words);
                        words = words.push(word@);
                        assert(out@ =~= spaced(words));
                    }
                } else {
                    token.push(c);
                }
            },
            None => {
                assert(done =~= text@);
                break ;
            },
        }
    }
    let word = translate_word(token.as_str(), dictionary);
    out.append(word.as_str());
    proof {
        let all = words.push(word@);
        assert(all.drop_last() =~= words);
        assert(is_translation_by(text@, dictionary@, out@, all));
    }
    out
}

} // verus!
