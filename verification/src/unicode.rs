//! What the standard library knows of characters and their case, and the
//! comparison of two strings by their characters.

use vstd::prelude::*;
use vstd::std_specs::iter::IteratorSpec;
use vstd::string::*;

verus! {

/// Whether a character has the Unicode property Lowercase.
pub uninterp spec fn is_lowercase_char(c: char) -> bool;

/// Whether a character is alphabetic or numeric in the sense of Unicode.
pub uninterp spec fn is_alphanumeric_char(c: char) -> bool;

/// The lowercase text of a string.
pub uninterp spec fn lowercase_of(text: Seq<char>) -> Seq<char>;

/// The uppercase text of a string.
pub uninterp spec fn uppercase_of(text: Seq<char>) -> Seq<char>;

/// The lowercase mapping of one character.
pub uninterp spec fn lowercase_of_char(c: char) -> Seq<char>;

/// The uppercase mapping of one character.
pub uninterp spec fn uppercase_of_char(c: char) -> Seq<char>;

/// `char::is_lowercase`: the answer depends on the character alone, and is
/// the one that `is_lowercase_char` stands for.
pub assume_specification[ char::is_lowercase ](c: char) -> (lower: bool)
    ensures
        lower == is_lowercase_char(c),
;

/// `char::is_alphanumeric`: the answer depends on the character alone, and is
/// the one that `is_alphanumeric_char` stands for.
pub assume_specification[ char::is_alphanumeric ](c: char) -> (alnum: bool)
    ensures
        alnum == is_alphanumeric_char(c),
;

/// `str::to_lowercase`: the new string depends on the characters of the old
/// one alone, and is the one that `lowercase_of` stands for.
pub assume_specification[ str::to_lowercase ](text: &str) -> (lowered: String)
    ensures
        lowered@ == lowercase_of(text@),
;

/// `str::to_uppercase`: the new string depends on the characters of the old
/// one alone, and is the one that `uppercase_of` stands for.
pub assume_specification[ str::to_uppercase ](text: &str) -> (raised: String)
    ensures
        raised@ == uppercase_of(text@),
;

/// `String::push`: the character is appended at the end.
pub assume_specification[ String::push ](text: &mut String, c: char)
    ensures
        final(text)@ == old(text)@.push(c),
;

/// `char::to_lowercase`, collected into a string: the mapping of one
/// character, which is documented to hold one or more characters.
#[verifier::external_body]
pub(crate) fn lowercase_char(c: char) -> (lowered: String)
    ensures
        lowered@ == lowercase_of_char(c),
        lowered@.len() >= 1,
{
    c.to_lowercase().collect()
}

/// `char::to_uppercase`, collected into a string: the mapping of one
/// character, which is documented to hold one or more characters.
#[verifier::external_body]
pub(crate) fn uppercase_char(c: char) -> (raised: String)
    ensures
        raised@ == uppercase_of_char(c),
        raised@.len() >= 1,
{
    c.to_uppercase().collect()
}

/// Whether two strings hold the same characters.
pub fn same_text(a: &str, b: &str) -> (same: bool)
    ensures
        same == (a@ == b@),
{
    broadcast use group_string_axioms;

    let mut left = a.chars();
    let mut right = b.chars();
    let ghost mut done: Seq<char> = Seq::empty();
    loop
        invariant
            done + left.remaining() == a@,
            done + right.remaining() == b@,
            left.obeys_prophetic_iter_laws(),
            right.obeys_prophetic_iter_laws(),
            left.decrease() is Some,
        decreases left.decrease()->0,
    {
        match (left.next(), right.next()) {
            (Some(x), Some(y)) => {
                if x != y {
                    assert(a@[done.len() as int] == x);
                    assert(b@[done.len() as int] == y);
                    return false;
                }
                proof {
                    done = done.push(x);
                    assert(done + left.remaining() =~= a@);
                    assert(done + right.remaining() =~= b@);
                }
            },
            (None, None) => {
                assert(a@ =~= done);
                assert(b@ =~= done);
                return true;
            },
            _ => {
                assert(a@.len() != b@.len());
                return false;
            },
        }
    }
}

} // verus!
