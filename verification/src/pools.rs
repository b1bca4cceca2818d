//! The four fixed character pools that passwords are drawn from.

use vstd::prelude::*;

verus! {

/// The vowels, in pool order.
pub const VOWELS: [char; 5] = ['a', 'e', 'i', 'o', 'u'];

/// The consonants, in pool order.
pub const CONSONANTS: [char; 21] = [
    'b', 'c', 'd', 'f', 'g', 'h', 'j', 'k', 'l', 'm', 'n', 'p', 'q', 'r', 's', 't', 'v', 'w', 'x',
    'y', 'z',
];

/// The digits, in pool order.
pub const NUMBERS: [char; 10] = ['0', '1', '2', '3', '4', '5', '6', '7', '8', '9'];

/// The symbols, in pool order.
pub const SPECIALS: [char; 6] = ['!', '+', '#', '/', '$', '?'];

/// A vowel is drawn by an index below this bound, so `u` is never drawn.
pub const VOWEL_DRAWS: usize = 4;

/// A consonant is drawn by an index below this bound, so `z` is never drawn.
pub const CONSONANT_DRAWS: usize = 20;

/// A digit is drawn by an index below this bound, so `9` is never drawn.
pub const NUMBER_DRAWS: usize = 9;

/// A symbol is drawn by an index below this bound, so `?` is never drawn.
pub const SPECIAL_DRAWS: usize = 5;

/// How many different characters a password position is taken to range over:
/// every letter in both cases, every digit and every symbol.
pub const SET_SIZE: u8 = 68;

/// `SET_SIZE` counts each letter pool twice and the other two pools once.
pub proof fn set_size_counts_the_pools()
    ensures
        SET_SIZE == (VOWELS@.len() + CONSONANTS@.len()) * 2 + NUMBERS@.len() + SPECIALS@.len(),
{
}

/// A lower-case ASCII letter.
pub open spec fn is_lower(c: char) -> bool {
    'a' <= c <= 'z'
}

/// An upper-case ASCII letter.
pub open spec fn is_upper(c: char) -> bool {
    'A' <= c <= 'Z'
}

/// An ASCII letter of either case.
pub open spec fn is_letter(c: char) -> bool {
    is_lower(c) || is_upper(c)
}

/// An ASCII digit.
pub open spec fn is_digit(c: char) -> bool {
    '0' <= c <= '9'
}

/// One of the six symbols of the symbol pool.
pub open spec fn is_symbol(c: char) -> bool {
    c == '!' || c == '+' || c == '#' || c == '/' || c == '$' || c == '?'
}

/// The upper-case form of a lower-case ASCII letter; any other character is
/// its own upper-case form.
pub open spec fn upper(c: char) -> char {
    if is_lower(c) {
        ((c as u32 - 32) as u8) as char
    } else {
        c
    }
}

/// Upper-cases one ASCII letter.
pub fn to_upper(c: char) -> (u: char)
    ensures
        u == upper(c),
        is_lower(c) ==> is_upper(u),
{
    if 'a' <= c && c <= 'z' {
        let code: u8 = c as u8;
        (code - 32) as char
    } else {
        c
    }
}

} // verus!
