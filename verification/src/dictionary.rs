//! The dictionary: for each known word, the words that may stand in its
//! place.

use crate::unicode::same_text;
use std::collections::BTreeMap;
use vstd::prelude::*;

verus! {

/// One line of a dictionary as plain values: a word and its candidates.
pub type Entry = (Seq<char>, Seq<Seq<char>>);

/// The mapping that a list of entries stands for. A later entry for a word
/// takes the place of an earlier one, and an entry without candidates
/// withdraws the word.
pub open spec fn table_of(entries: Seq<Entry>) -> Map<Seq<char>, Seq<Seq<char>>>
    decreases entries.len(),
{
    if entries.len() == 0 {
        Map::empty()
    } else {
        let earlier = table_of(entries.drop_last());
        let (word, candidates) = entries.last();
        if candidates.len() == 0 {
            earlier.remove(word)
        } else {
            earlier.insert(word, candidates)
        }
    }
}

/// No word of a table is left without a candidate.
pub proof fn lemma_table_candidates_nonempty(entries: Seq<Entry>)
    ensures
        forall|word: Seq<char>| #[trigger]
            table_of(entries).contains_key(word) ==> table_of(entries)[word].len() >= 1,
    decreases entries.len(),
{
    if entries.len() > 0 {
        lemma_table_candidates_nonempty(entries.drop_last());
        let earlier = table_of(entries.drop_last());
        assert forall|word: Seq<char>| #[trigger]
            table_of(entries).contains_key(word) implies table_of(entries)[word].len() >= 1 by {
            if word != entries.last().0 {
                assert(earlier.contains_key(word));
            }
        }
    }
}

/// The table that a TOML document of string lists holds: its keys in
/// ascending order, each with its list. `None` for a text that is no such
/// document.
pub uninterp spec fn toml_table(contents: Seq<char>) -> Option<Seq<Entry>>;

#[verifier::external_type_specification]
#[verifier::external_body]
pub struct ExTomlError(toml::de::Error);

/// `toml::from_str` at the type of a sorted map from strings to lists of
/// strings, handed out as its pairs in the map's order. Whether the text is
/// accepted, and what it then holds, depends on the text alone: that is what
/// `toml_table` stands for.
#[verifier::external_body]
fn parse_table(contents: &str) -> (parsed: Result<Vec<(String, Vec<String>)>, toml::de::Error>)
    ensures
        match parsed {
            Ok(entries) => toml_table(contents@) == Some(entries.deep_view()),
            Err(_) => toml_table(contents@) is None,
        },
{
    match toml::from_str::<BTreeMap<String, Vec<String>>>(contents) {
        Ok(table) => Ok(table.into_iter().collect()),
        Err(error) => Err(error),
    }
}

/// The `Display` text of a `toml::de::Error`. Nothing is claimed of it.
#[verifier::external_body]
fn reason_of(error: &toml::de::Error) -> String {
    error.to_string()
}

/// Why a text could not be read as a dictionary.
#[derive(Debug)]
pub enum DictionaryError {
    /// The text is not a TOML table of string lists.
    Malformed { reason: String },
}

/// A mapping from words to their candidates.
pub struct Dictionary {
    entries: Vec<(String, Vec<String>)>,
}

impl View for Dictionary {
    type V = Map<Seq<char>, Seq<Seq<char>>>;

    closed spec fn view(&self) -> Map<Seq<char>, Seq<Seq<char>>> {
        table_of(self.entries.deep_view())
    }
}

impl Dictionary {
    /// Every word of a dictionary has at least one candidate.
    pub proof fn lemma_candidates_nonempty(self)
        ensures
            forall|word: Seq<char>| #[trigger]
                self@.contains_key(word) ==> self@[word].len() >= 1,
    {
        lemma_table_candidates_nonempty(self.entries.deep_view());
    }

    /// The dictionary without any word.
    pub fn new() -> (dictionary: Dictionary)
        ensures
            dictionary@ == Map::<Seq<char>, Seq<Seq<char>>>::empty(),
    {
        let dictionary = Dictionary { entries: Vec::new() };
        assert(dictionary.entries.deep_view() =~= Seq::<Entry>::empty());
        dictionary
    }

    /// The dictionary that a list of entries stands for.
    pub fn from_entries(entries: Vec<(String, Vec<String>)>) -> (dictionary: Dictionary)
        ensures
            dictionary@ == table_of(entries.deep_view()),
    {
        Dictionary { entries }
    }

    /// Reads a dictionary from a TOML document in which each key is a word
    /// and each value the list of its candidates.
    pub fn from_toml(contents: &str) -> (loaded: Result<Dictionary, DictionaryError>)
        ensures
            match toml_table(contents@) {
                Some(entries) => loaded is Ok && loaded->Ok_0@ == table_of(entries),
                None => loaded is Err,
            },
    {
        match parse_table(contents) {
            Ok(entries) => Ok(Dictionary::from_entries(entries)),
            Err(error) => Err(DictionaryError::Malformed { reason: reason_of(&error) }),
        }
    }

    /// Gives `word` the candidates listed, in place of any it had. A word
    /// given no candidate is a word that the dictionary does not know.
    pub fn insert(&mut self, word: String, candidates: Vec<String>)
        ensures
            final(self)@ == if candidates@.len() == 0 {
                old(self)@.remove(word@)
            } else {
                old(self)@.insert(word@, candidates.deep_view())
            },
    {
        let ghost before = self.entries.deep_view();
        let ghost entry: Entry = (word@, candidates.deep_view());
        self.entries.push((word, candidates));
        proof {
            assert(self.entries.deep_view() =~= before.push(entry));
            assert(before.push(entry).drop_last() =~= before);
        }
    }

    /// The candidates of `word`, if the dictionary knows it.
    pub fn lookup(&self, word: &str) -> (found: Option<&Vec<String>>)
        ensures
            match found {
                Some(candidates) => self@.contains_key(word@) && self@[word@]
                    == candidates.deep_view(),
                None => !self@.contains_key(word@),
            },
    {
        let ghost all = self.entries.deep_view();
        let mut at: usize = self.entries.len();
        assert(all.take(at as int) =~= all);
        while at > 0
            invariant
                at <= self.entries.len(),
                all == self.entries.deep_view(),
                table_of(all).contains_key(word@) == table_of(all.take(at as int)).contains_key(
                    word@,
                ),
                table_of(all).contains_key(word@) ==> table_of(all)[word@] == table_of(
                    all.take(at as int),
                )[word@],
            decreases at,
        {
            at = at - 1;
            proof {
                assert(all.take(at + 1).drop_last() =~= all.take(at as int));
                assert(all.take(at + 1).last() == all[at as int]);
            }
            if same_text(self.entries[at].0.as_str(), word) {
                let candidates = &self.entries[at].1;
                if candidates.len() == 0 {
                    return None;
                } else {
                    return Some(candidates);
                }
            }
        }
        assert(all.take(0) =~= Seq::<Entry>::empty());
        None
    }
}

} // verus!
