//! The classes of characters that decide where a word begins and how far it
//! reaches. The scanner reads them from a table that is made before it
//! starts; `class_of` fills that table from the standard library.

use vstd::prelude::*;

verus! {

/// What the scanner needs to know of a character beyond the character
/// itself.
#[derive(Debug, Clone, Copy, PartialEq, Eq, Structural)]
pub struct CharClass {
    /// The character may begin a word.
    pub alphabetic: bool,
    /// The character may continue a word.
    pub alphanumeric: bool,
}

/// Whether `char::is_alphabetic` holds of `c`.
pub uninterp spec fn unicode_alphabetic(c: char) -> bool;

/// Whether `char::is_alphanumeric` holds of `c`.
pub uninterp spec fn unicode_alphanumeric(c: char) -> bool;

/// `char::is_alphabetic` decides whether a character has the Unicode property
/// Alphabetic. The answer depends on the character alone.
pub assume_specification[ char::is_alphabetic ](c: char) -> (yes: bool)
    ensures
        yes == unicode_alphabetic(c),
;

/// `char::is_alphanumeric` decides whether a character is alphabetic or
/// numeric in the sense of Unicode. The answer depends on the character
/// alone.
pub assume_specification[ char::is_alphanumeric ](c: char) -> (yes: bool)
    ensures
        yes == unicode_alphanumeric(c),
;

/// The class that Unicode gives `c`.
pub open spec fn unicode_class(c: char) -> CharClass {
    CharClass { alphabetic: unicode_alphabetic(c), alphanumeric: unicode_alphanumeric(c) }
}

/// The classes that Unicode gives the characters of `s`, position by
/// position.
pub open spec fn unicode_classes(s: Seq<char>) -> Seq<CharClass> {
    s.map_values(|c: char| unicode_class(c))
}

/// The class of `c` according to the standard library.
pub fn class_of(c: char) -> (class: CharClass)
    ensures
        class == unicode_class(c),
{
    CharClass { alphabetic: c.is_alphabetic(), alphanumeric: c.is_alphanumeric() }
}

/// The classes of the characters of `chars` according to the standard
/// library.
pub fn classes_of(chars: &Vec<char>) -> (classes: Vec<CharClass>)
    ensures
        classes@ == unicode_classes(chars@),
{
    let mut classes: Vec<CharClass> = Vec::new();
    let mut i: usize = 0;
    while i < chars.len()
        invariant
            i <= chars.len(),
            classes@ == unicode_classes(chars@.take(i as int)),
        decreases chars.len() - i,
    {
        classes.push(class_of(chars[i]));
        assert(unicode_classes(chars@.take(i + 1)) =~= unicode_classes(chars@.take(i as int)).push(
            unicode_class(chars[i as int]),
        ));
        i += 1;
    }
    assert(chars@.take(chars.len() as int) =~= chars@);
    classes
}

} // verus!
