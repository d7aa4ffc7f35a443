//! Letter normalization for the word-guessing game: case folding for ASCII
//! letters together with removal of the diacritics of the Latin-1 accented
//! letters. Guessed letters are stored and compared in this normal form, so
//! that a guess of `e` also uncovers an `é` in the secret word.

use vstd::prelude::*;

verus! {

/// The normal form of a character: ASCII capitals fold to lower case and
/// accented Latin-1 letters lose their diacritic; every other character is
/// its own normal form.
pub open spec fn normal_of(c: char) -> char {
    if c >= 'A' && c <= 'Z' {
        (((c as u8) + 0x20) as char)
    } else if (c >= '\u{c0}' && c <= '\u{c5}') || (c >= '\u{e0}' && c <= '\u{e5}') {
        'a'
    } else if c == '\u{c7}' || c == '\u{e7}' {
        'c'
    } else if (c >= '\u{c8}' && c <= '\u{cb}') || (c >= '\u{e8}' && c <= '\u{eb}') {
        'e'
    } else if (c >= '\u{cc}' && c <= '\u{cf}') || (c >= '\u{ec}' && c <= '\u{ef}') {
        'i'
    } else if c == '\u{d1}' || c == '\u{f1}' {
        'n'
    } else if (c >= '\u{d2}' && c <= '\u{d6}') || (c >= '\u{f2}' && c <= '\u{f6}') {
        'o'
    } else if (c >= '\u{d9}' && c <= '\u{dc}') || (c >= '\u{f9}' && c <= '\u{fc}') {
        'u'
    } else if c == '\u{dd}' || c == '\u{fd}' || c == '\u{ff}' {
        'y'
    } else {
        c
    }
}

/// A character counts as a letter of the game exactly when its normal form
/// is one of the twenty-six lower-case ASCII letters. Spaces, digits and
/// punctuation are not letters and never block a word from being solved.
pub open spec fn is_game_letter(c: char) -> bool {
    normal_of(c) >= 'a' && normal_of(c) <= 'z'
}

/// Computes the normal form of a character.
pub fn normalize_letter(c: char) -> (r: char)
    ensures
        r == normal_of(c),
{
    if c >= 'A' && c <= 'Z' {
        (((c as u8) + 0x20) as char)
    } else if (c >= '\u{c0}' && c <= '\u{c5}') || (c >= '\u{e0}' && c <= '\u{e5}') {
        'a'
    } else if c == '\u{c7}' || c == '\u{e7}' {
        'c'
    } else if (c >= '\u{c8}' && c <= '\u{cb}') || (c >= '\u{e8}' && c <= '\u{eb}') {
        'e'
    } else if (c >= '\u{cc}' && c <= '\u{cf}') || (c >= '\u{ec}' && c <= '\u{ef}') {
        'i'
    } else if c == '\u{d1}' || c == '\u{f1}' {
        'n'
    } else if (c >= '\u{d2}' && c <= '\u{d6}') || (c >= '\u{f2}' && c <= '\u{f6}') {
        'o'
    } else if (c >= '\u{d9}' && c <= '\u{dc}') || (c >= '\u{f9}' && c <= '\u{fc}') {
        'u'
    } else if c == '\u{dd}' || c == '\u{fd}' || c == '\u{ff}' {
        'y'
    } else {
        c
    }
}

/// Reports whether the character counts as a letter of the game.
pub fn letter_of_game(c: char) -> (r: bool)
    ensures
        r == is_game_letter(c),
{
    let n = normalize_letter(c);
    n >= 'a' && n <= 'z'
}

/// Normalization is idempotent: the normal form of a character is already
/// in normal form.
pub proof fn lemma_normal_idempotent(c: char)
    ensures
        normal_of(normal_of(c)) == normal_of(c),
{
}

} // verus!
