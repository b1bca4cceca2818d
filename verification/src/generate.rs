//! The generators: words, runs of digits, symbols, passwords and lists.

use crate::error::Error;
use crate::error::LengthRule;
use crate::pools::is_digit;
use crate::pools::is_letter;
use crate::pools::is_symbol;
use crate::pools::to_upper;
use crate::pools::upper;
use crate::pools::CONSONANTS;
use crate::pools::CONSONANT_DRAWS;
use crate::pools::NUMBERS;
use crate::pools::NUMBER_DRAWS;
use crate::pools::SPECIALS;
use crate::pools::SPECIAL_DRAWS;
use crate::pools::VOWELS;
use crate::pools::VOWEL_DRAWS;
use crate::random::next_index;
use vstd::prelude::*;
use vstd::string::StringExecFns;

verus! {

/// `String::push` appends the character to the end of the string.
pub assume_specification[ String::push ](text: &mut String, c: char)
    ensures
        final(text)@ == old(text)@.push(c),
;

/// The exclusive bound of the draw that fills `position` of a word: even
/// positions hold a consonant, odd positions a vowel.
pub open spec fn word_draws(position: int) -> int {
    if position % 2 == 0 {
        CONSONANT_DRAWS as int
    } else {
        VOWEL_DRAWS as int
    }
}

/// The letter that `draw` puts at `position` of a word: a consonant at even
/// positions, in upper case at every fourth position from the start, and a
/// vowel at odd positions.
pub open spec fn letter_at(position: int, draw: int) -> char {
    if position % 2 != 0 {
        VOWELS@[draw]
    } else if position % 4 == 0 {
        upper(CONSONANTS@[draw])
    } else {
        CONSONANTS@[draw]
    }
}

/// Some draw puts `c` at `position` of a word.
pub open spec fn is_word_letter(position: int, c: char) -> bool {
    exists|draw: int| 0 <= draw < word_draws(position) && c == #[trigger] letter_at(position, draw)
}

/// Every position of `s` holds a letter that a draw can put there.
pub open spec fn is_word(s: Seq<char>) -> bool {
    forall|i: int| 0 <= i < s.len() ==> is_word_letter(i, #[trigger] s[i])
}

/// Some draw yields the digit `c`.
pub open spec fn is_drawn_digit(c: char) -> bool {
    exists|draw: int| 0 <= draw < NUMBER_DRAWS && c == #[trigger] NUMBERS@[draw]
}

/// Every position of `s` holds a digit that a draw can yield.
pub open spec fn is_numbers(s: Seq<char>) -> bool {
    forall|i: int| 0 <= i < s.len() ==> is_drawn_digit(#[trigger] s[i])
}

/// Some draw yields the symbol `c`.
pub open spec fn is_drawn_special(c: char) -> bool {
    exists|draw: int| 0 <= draw < SPECIAL_DRAWS && c == #[trigger] SPECIALS@[draw]
}

/// Every character of `s` is an ASCII letter.
pub open spec fn all_letters(s: Seq<char>) -> bool {
    forall|i: int| 0 <= i < s.len() ==> is_letter(#[trigger] s[i])
}

/// Every character of `s` is a digit from `0` to `8`.
pub open spec fn all_low_digits(s: Seq<char>) -> bool {
    forall|i: int| 0 <= i < s.len() ==> '0' <= #[trigger] s[i] <= '8'
}

/// Every character of `s` is a letter, a digit or a symbol of the pool.
pub open spec fn in_alphabet(s: Seq<char>) -> bool {
    forall|i: int|
        0 <= i < s.len() ==> {
            let c = #[trigger] s[i];
            is_letter(c) || is_digit(c) || is_symbol(c)
        }
}

/// A password of `length` characters: a word, then two digits, then one
/// symbol.
pub open spec fn is_password(s: Seq<char>, length: int) -> bool {
    &&& 3 <= length
    &&& s.len() == length
    &&& is_word(s.subrange(0, length - 3))
    &&& is_numbers(s.subrange(length - 3, length - 1))
    &&& is_drawn_special(s[length - 1])
}

/// The length or count asked for: 16 where none is given.
pub open spec fn asked(amount: Option<u8>) -> int {
    match amount {
        Some(n) => n as int,
        None => 16,
    }
}

/// A letter that a draw puts into a word is an ASCII letter.
pub proof fn word_letter_is_letter(position: int, c: char)
    requires
        is_word_letter(position, c),
    ensures
        is_letter(c),
{
    let draw = choose|draw: int| 0 <= draw < word_draws(position) && c == letter_at(position, draw);
    assert(is_letter(letter_at(position, draw)));
}

/// The bound below which the index for `position` of a word is drawn.
pub fn word_draw_bound(position: u8) -> (bound: usize)
    ensures
        bound == word_draws(position as int),
{
    if position % 2 == 0 {
        CONSONANT_DRAWS
    } else {
        VOWEL_DRAWS
    }
}

/// The letter that the index `draw` puts at `position` of a word.
pub fn word_letter(position: u8, draw: usize) -> (c: char)
    requires
        draw < word_draws(position as int),
    ensures
        c == letter_at(position as int, draw as int),
{
    if position % 2 == 0 {
        if position == 0 || position % 4 == 0 {
            to_upper(CONSONANTS[draw])
        } else {
            CONSONANTS[draw]
        }
    } else {
        VOWELS[draw]
    }
}

/// A word of `length` letters, each drawn afresh.
pub fn generate_words(length: u8) -> (r: Result<String, Error>)
    ensures
        r is Ok <==> LengthRule::Words.admits(length as int),
        r matches Ok(word) ==> word@.len() == length && is_word(word@) && all_letters(word@),
        r matches Err(e) ==> e == Error::InvalidLength(LengthRule::Words),
{
    if !LengthRule::Words.accepts(length) {
        return Err(Error::InvalidLength(LengthRule::Words));
    }
    let mut generated_words = String::new();
    let mut i: u8 = 0;
    while i < length
        invariant
            i <= length,
            generated_words@.len() == i,
            is_word(generated_words@),
            all_letters(generated_words@),
        decreases length - i,
    {
        let draw = next_index(word_draw_bound(i));
        let letter = word_letter(i, draw);
        proof {
            word_letter_is_letter(i as int, letter);
        }
        generated_words.push(letter);
        i += 1;
    }
    Ok(generated_words)
}

/// The digit that the index `draw` yields.
pub fn number_digit(draw: usize) -> (c: char)
    requires
        draw < NUMBER_DRAWS,
    ensures
        c == NUMBERS@[draw as int],
        '0' <= c <= '8',
{
    NUMBERS[draw]
}

/// The symbol that the index `draw` yields.
pub fn special_symbol(draw: usize) -> (c: char)
    requires
        draw < SPECIAL_DRAWS,
    ensures
        c == SPECIALS@[draw as int],
        is_symbol(c),
        c != '?',
{
    SPECIALS[draw]
}

/// A run of `length` digits, each drawn afresh. The draw never yields `9`.
pub fn generate_numbers(length: u8) -> (r: Result<String, Error>)
    ensures
        r is Ok <==> LengthRule::Numbers.admits(length as int),
        r matches Ok(numbers) ==> numbers@.len() == length && is_numbers(numbers@)
            && all_low_digits(numbers@),
        r matches Err(e) ==> e == Error::InvalidLength(LengthRule::Numbers),
{
    if !LengthRule::Numbers.accepts(length) {
        return Err(Error::InvalidLength(LengthRule::Numbers));
    }
    let mut generated_numbers = String::new();
    let mut i: u8 = 0;
    while i < length
        invariant
            i <= length,
            generated_numbers@.len() == i,
            is_numbers(generated_numbers@),
            all_low_digits(generated_numbers@),
        decreases length - i,
    {
        let draw = next_index(NUMBER_DRAWS);
        generated_numbers.push(number_digit(draw));
        i += 1;
    }
    Ok(generated_numbers)
}

/// One drawn symbol, as a string. The draw never yields `?`.
pub fn generate_specials() -> (specials: String)
    ensures
        specials@.len() == 1,
        is_drawn_special(specials@[0]),
        is_symbol(specials@[0]),
        specials@[0] != '?',
{
    let draw = next_index(SPECIAL_DRAWS);
    let mut specials = String::new();
    specials.push(special_symbol(draw));
    specials
}

/// A word, two digits and a symbol form a password whose characters all
/// belong to the alphabet of the pools.
pub proof fn password_in_alphabet(s: Seq<char>, length: int)
    requires
        is_password(s, length),
    ensures
        in_alphabet(s),
{
    assert forall|i: int| 0 <= i < s.len() implies {
        let c = #[trigger] s[i];
        is_letter(c) || is_digit(c) || is_symbol(c)
    } by {
        if i < length - 3 {
            let word = s.subrange(0, length - 3);
            assert(word[i] == s[i]);
            word_letter_is_letter(i, word[i]);
        } else if i < length - 1 {
            let numbers = s.subrange(length - 3, length - 1);
            assert(numbers[i - (length - 3)] == s[i]);
        } else {
            assert(i == length - 1);
        }
    }
}

/// A password: a word, then two digits, then one symbol, `length` characters
/// in all, or 16 where no length is given.
pub fn generate_password(length: Option<u8>) -> (r: Result<String, Error>)
    ensures
        r is Ok <==> (length matches Some(n) ==> LengthRule::Password.admits(n as int)),
        r matches Ok(password) ==> is_password(password@, asked(length)) && in_alphabet(
            password@,
        ),
        r matches Err(e) ==> e == Error::InvalidLength(LengthRule::Password),
{
    let length_value: u8 = match length {
        Some(length_value) => {
            if !LengthRule::Password.accepts(length_value) {
                return Err(Error::InvalidLength(LengthRule::Password));
            }
            length_value
        },
        None => 16,
    };
    let mut generated_password = String::new();
    match generate_words(length_value - 3) {
        Ok(words_value) => {
            generated_password.append(words_value.as_str());
            match generate_numbers(2) {
                Ok(numbers_value) => {
                    generated_password.append(numbers_value.as_str());
                    let specials = generate_specials();
                    generated_password.append(specials.as_str());
                    proof {
                        let s = generated_password@;
                        assert(s.subrange(0, length_value - 3) =~= words_value@);
                        assert(s.subrange(length_value - 3, length_value - 1) =~= numbers_value@);
                        assert(s[length_value - 1] == specials@[0]);
                        password_in_alphabet(s, length_value as int);
                    }
                    Ok(generated_password)
                },
                Err(e) => Err(e),
            }
        },
        Err(e) => Err(e),
    }
}

/// A list of passwords of 16 characters each: `count` of them, or 16 where no
/// count is given.
pub fn generate_list(count: Option<u8>) -> (r: Result<Vec<String>, Error>)
    ensures
        r is Ok <==> (count matches Some(n) ==> LengthRule::List.admits(n as int)),
        r matches Ok(list) ==> {
            &&& list@.len() == asked(count)
            &&& forall|i: int|
                0 <= i < list@.len() ==> is_password(#[trigger] list@[i]@, 16) && in_alphabet(
                    list@[i]@,
                )
        },
        r matches Err(e) ==> e == Error::InvalidLength(LengthRule::List),
{
    let count_value: u8 = match count {
        Some(count_value) => {
            if !LengthRule::List.accepts(count_value) {
                return Err(Error::InvalidLength(LengthRule::List));
            }
            count_value
        },
        None => 16,
    };
    let mut list: Vec<String> = Vec::new();
    let mut n: u8 = 0;
    while n < count_value
        invariant
            n <= count_value,
            list@.len() == n,
            forall|i: int|
                0 <= i < list@.len() ==> is_password(#[trigger] list@[i]@, 16) && in_alphabet(
                    list@[i]@,
                ),
        decreases count_value - n,
    {
        match generate_password(None) {
            Ok(psw_value) => list.push(psw_value),
            Err(e) => {
                return Err(e);
            },
        }
        n += 1;
    }
    Ok(list)
}

} // verus!
