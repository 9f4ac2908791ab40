//! Word-by-word text substitution that keeps each word's letter casing and
//! trailing punctuation.
//!
//! A text is cut at its spaces. Each piece loses one trailing punctuation
//! character, is looked up in a [`Dictionary`] in lowercase, gives its own
//! casing to the candidate drawn for it, and gets its punctuation back.

pub mod casing;
pub mod dictionary;
pub mod picker;
pub mod punctuation;
pub mod translator;
pub mod unicode;

pub use casing::Casing;
pub use dictionary::{Dictionary, DictionaryError};
pub use picker::{get_pirate_translation, pick_at};
pub use punctuation::{split_last_char, split_punctuation};
pub use translator::{translate, translate_word, translate_word_at};
