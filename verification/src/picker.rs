//! Choosing one of a word's candidates.

use crate::dictionary::Dictionary;
use rand::Rng;
use vstd::prelude::*;

verus! {

/// The candidate of `word` at position `draw`. A word that the dictionary
/// does not know, or that has no candidate there, stands for itself.
pub open spec fn candidate_at(
    word: Seq<char>,
    dictionary: Map<Seq<char>, Seq<Seq<char>>>,
    draw: int,
) -> Seq<char> {
    if dictionary.contains_key(word) && 0 <= draw < dictionary[word].len() {
        dictionary[word][draw]
    } else {
        word
    }
}

/// Whether `pick` may stand for `word`: it is one of the word's candidates,
/// or the word itself where the dictionary does not know the word.
pub open spec fn is_pick(
    word: Seq<char>,
    dictionary: Map<Seq<char>, Seq<Seq<char>>>,
    pick: Seq<char>,
) -> bool {
    if dictionary.contains_key(word) {
        dictionary[word].contains(pick)
    } else {
        pick == word
    }
}

/// Every pick is the candidate at some position.
pub proof fn lemma_pick_is_candidate_at_some_position(
    word: Seq<char>,
    dictionary: Map<Seq<char>, Seq<Seq<char>>>,
    pick: Seq<char>,
)
    requires
        is_pick(word, dictionary, pick),
    ensures
        exists|draw: int| pick == candidate_at(word, dictionary, draw),
{
    if dictionary.contains_key(word) {
        let at = choose|at: int| 0 <= at < dictionary[word].len() && dictionary[word][at] == pick;
        assert(pick == candidate_at(word, dictionary, at));
    } else {
        assert(pick == candidate_at(word, dictionary, 0));
    }
}

/// The candidate at a position is a pick, where the word is unknown or has
/// a candidate at that position.
pub proof fn lemma_candidate_in_range_is_pick(
    word: Seq<char>,
    dictionary: Map<Seq<char>, Seq<Seq<char>>>,
    draw: int,
)
    requires
        dictionary.contains_key(word) ==> 0 <= draw < dictionary[word].len(),
    ensures
        is_pick(word, dictionary, candidate_at(word, dictionary, draw)),
{
}

/// `rand::thread_rng` and `Rng::gen_range` from zero: a number below
/// `bound`, which must not be zero. Which one is left open. The generator
/// is the calling thread's own, seeded by the operating system.
#[verifier::external_body]
fn random_below(bound: usize) -> (draw: usize)
    requires
        bound > 0,
    ensures
        draw < bound,
{
    rand::thread_rng().gen_range(0, bound)
}

/// The candidate of `word` at position `draw`, or `word` itself where the
/// dictionary has no candidate there.
pub fn pick_at<'a>(word: &'a str, dictionary: &'a Dictionary, draw: usize) -> (pick: &'a str)
    ensures
        pick@ == candidate_at(word@, dictionary@, draw as int),
{
    match dictionary.lookup(word) {
        Some(candidates) => {
            if draw < candidates.len() {
                candidates[draw].as_str()
            } else {
                word
            }
        },
        None => word,
    }
}

/// One of the candidates of `word`, drawn at random with equal chances, or
/// `word` itself where the dictionary does not know it.
pub fn get_pirate_translation<'a>(word: &'a str, dictionary: &'a Dictionary) -> (pick: &'a str)
    ensures
        is_pick(word@, dictionary@, pick@),
        !dictionary@.contains_key(word@) ==> pick@ == word@,
{
    match dictionary.lookup(word) {
        Some(candidates) => {
            proof {
                dictionary.lemma_candidates_nonempty();
            }
            let draw = random_below(candidates.len());
            let pick = candidates[draw].as_str();
            assert(dictionary@[word@][draw as int] == pick@);
            pick
        },
        None => word,
    }
}

} // verus!
