use arcanus::generate::number_digit;
use arcanus::generate::special_symbol;
use arcanus::generate::word_draw_bound;
use arcanus::generate::word_letter;
use arcanus::pools::to_upper;
use arcanus::pools::CONSONANTS;
use arcanus::pools::NUMBERS;
use arcanus::pools::SET_SIZE;
use arcanus::pools::SPECIALS;
use arcanus::pools::VOWELS;
use arcanus::{
    generate_list, generate_numbers, generate_password, generate_specials, generate_words,
    next_index, Error, LengthRule, Transfer,
};
use regex::Regex;

#[test]
fn test_generate_words_13() {
    let words_length = 13;
    let generated_words = generate_words(words_length);
    match generated_words {
        Ok(words) => {
            assert_eq!(words.len(), words_length.into());
            let pattern = Regex::new(r"([a-zA-Z]){1,64}").unwrap();
            assert!(pattern.is_match(&words));
        }
        Err(_e) => panic!(),
    }
}

#[test]
fn test_generate_words_0() {
    let words_length = 0;
    let generated_words = generate_words(words_length);
    match generated_words {
        Ok(_words) => panic!(),
        Err(e) => assert_eq!(
            e.message(),
            String::from(
                "Error by generating words: length parameter should be between 13 and 64.",
            )
        ),
    }
}

#[test]
fn test_generate_numbers_1() {
    let numbers_length = 1;
    let generated_numbers = generate_numbers(numbers_length);
    match generated_numbers {
        Ok(numbers) => {
            assert_eq!(numbers.len(), numbers_length.into());
            let pattern = Regex::new(r"([0-9]){1,64}").unwrap();
            assert!(pattern.is_match(&numbers));
        }
        Err(_) => panic!(),
    }
}

#[test]
fn test_generate_numbers_0() {
    let numbers_length = 0;
    let generated_numbers = generate_numbers(numbers_length);
    match generated_numbers {
        Ok(_numbers) => panic!(),
        Err(e) => assert_eq!(
            e.message(),
            String::from(
                "Error by generating words: length parameter should be between 1 and 4.",
            )
        ),
    }
}

#[test]
fn test_generate_specials() {
    let generated_specials = generate_specials();
    assert_eq!(generated_specials.len(), 1);
    let pattern = Regex::new(r"([!+#/$?])").unwrap();
    assert!(pattern.is_match(&generated_specials));
}

#[test]
fn test_generate_password_none() {
    let generated_password = generate_password(None).unwrap();
    assert_eq!(generated_password.len(), 16);
}

#[test]
fn test_generate_password_some() {
    let generated_password = generate_password(Some(32)).unwrap();
    assert_eq!(generated_password.len(), 32);
    let pattern = Regex::new(r"([a-zA-Z0-9!+#/$?]){16,64}").unwrap();
    assert!(pattern.is_match(&generated_password));
}

#[test]
fn test_generate_list_none() {
    let generated_list = generate_list(None).unwrap();
    assert_eq!(generated_list.len(), 16);
}

#[test]
fn test_generate_list_some() {
    let generated_list = generate_list(Some(32)).unwrap();
    assert_eq!(generated_list.len(), 32);
}

fn is_word(word: &str) -> bool {
    word.chars().enumerate().all(|(i, c)| {
        if i % 2 == 1 {
            "aeio".contains(c)
        } else if i % 4 == 0 {
            "BCDFGHJKLMNPQRSTVWXY".contains(c)
        } else {
            "bcdfghjklmnpqrstvwxy".contains(c)
        }
    })
}

#[test]
fn pools_hold_their_characters_in_order() {
    assert_eq!(VOWELS.iter().collect::<String>(), "aeiou");
    assert_eq!(CONSONANTS.iter().collect::<String>(), "bcdfghjklmnpqrstvwxyz");
    assert_eq!(NUMBERS.iter().collect::<String>(), "0123456789");
    assert_eq!(SPECIALS.iter().collect::<String>(), "!+#/$?");
    assert_eq!(SET_SIZE, 68);
}

#[test]
fn to_upper_raises_lower_case_letters_only() {
    assert_eq!(to_upper('a'), 'A');
    assert_eq!(to_upper('z'), 'Z');
    assert_eq!(to_upper('m'), 'M');
    assert_eq!(to_upper('Q'), 'Q');
    assert_eq!(to_upper('7'), '7');
    assert_eq!(to_upper('#'), '#');
    assert_eq!(to_upper('{'), '{');
    assert_eq!(to_upper('`'), '`');
}

#[test]
fn next_index_stays_below_its_bound() {
    for _ in 0..50 {
        assert_eq!(next_index(1), 0);
    }
    for bound in 1..40usize {
        for _ in 0..20 {
            assert!(next_index(bound) < bound);
        }
    }
}

#[test]
fn next_index_reaches_every_index() {
    let mut seen = [false; 4];
    for _ in 0..2000 {
        seen[next_index(4)] = true;
    }
    assert_eq!(seen, [true; 4]);
}

#[test]
fn word_draw_bound_alternates() {
    assert_eq!(word_draw_bound(0), 20);
    assert_eq!(word_draw_bound(1), 4);
    assert_eq!(word_draw_bound(2), 20);
    assert_eq!(word_draw_bound(63), 4);
}

#[test]
fn word_letter_follows_the_position() {
    assert_eq!(word_letter(0, 0), 'B');
    assert_eq!(word_letter(0, 19), 'Y');
    assert_eq!(word_letter(1, 0), 'a');
    assert_eq!(word_letter(1, 3), 'o');
    assert_eq!(word_letter(2, 0), 'b');
    assert_eq!(word_letter(2, 19), 'y');
    assert_eq!(word_letter(3, 2), 'i');
    assert_eq!(word_letter(4, 3), 'F');
    assert_eq!(word_letter(6, 3), 'f');
    assert_eq!(word_letter(8, 7), 'K');
    assert_eq!(word_letter(12, 9), 'M');
    assert_eq!(word_letter(62, 1), 'c');
    assert_eq!(word_letter(63, 1), 'e');
}

#[test]
fn number_digit_and_special_symbol_index_their_pools() {
    assert_eq!(number_digit(0), '0');
    assert_eq!(number_digit(5), '5');
    assert_eq!(number_digit(8), '8');
    assert_eq!(special_symbol(0), '!');
    assert_eq!(special_symbol(1), '+');
    assert_eq!(special_symbol(2), '#');
    assert_eq!(special_symbol(3), '/');
    assert_eq!(special_symbol(4), '$');
}

#[test]
fn words_alternate_consonants_and_vowels() {
    for length in 13..=64u8 {
        let word = generate_words(length).unwrap();
        assert_eq!(word.chars().count(), length as usize);
        assert!(is_word(&word), "{}", word);
    }
}

#[test]
fn words_reject_lengths_out_of_bounds() {
    for length in (0..13u8).chain(65..=255u8) {
        assert_eq!(
            generate_words(length),
            Err(Error::InvalidLength(LengthRule::Words))
        );
    }
}

#[test]
fn numbers_are_digits_below_nine() {
    for length in 1..=4u8 {
        for _ in 0..50 {
            let numbers = generate_numbers(length).unwrap();
            assert_eq!(numbers.len(), length as usize);
            assert!(numbers.chars().all(|c| ('0'..='8').contains(&c)));
        }
    }
}

#[test]
fn numbers_reject_lengths_out_of_bounds() {
    assert_eq!(
        generate_numbers(0),
        Err(Error::InvalidLength(LengthRule::Numbers))
    );
    for length in 5..=255u8 {
        assert_eq!(
            generate_numbers(length),
            Err(Error::InvalidLength(LengthRule::Numbers))
        );
    }
}

#[test]
fn specials_never_draw_the_last_symbol() {
    for _ in 0..300 {
        let specials = generate_specials();
        assert_eq!(specials.chars().count(), 1);
        assert!("!+#/$".contains(&specials));
    }
}

#[test]
fn passwords_are_word_digits_symbol() {
    for length in 16..=64u8 {
        let password = generate_password(Some(length)).unwrap();
        let n = length as usize;
        assert_eq!(password.len(), n);
        assert!(is_word(&password[..n - 3]));
        assert!(password[n - 3..n - 1]
            .chars()
            .all(|c| ('0'..='8').contains(&c)));
        assert!("!+#/$".contains(&password[n - 1..]));
    }
}

#[test]
fn passwords_reject_lengths_out_of_bounds() {
    for length in (0..16u8).chain(65..=255u8) {
        let rejected = generate_password(Some(length));
        assert_eq!(rejected, Err(Error::InvalidLength(LengthRule::Password)));
        assert_eq!(
            rejected.unwrap_err().message(),
            "Error: generate password should have a length between 16 and 64."
        );
    }
}

#[test]
fn lists_hold_passwords_of_sixteen_characters() {
    for count in [16u8, 17, 100, 255] {
        let list = generate_list(Some(count)).unwrap();
        assert_eq!(list.len(), count as usize);
        let pattern = Regex::new(r"^[A-Za-z0-9!+#/$?]{16}$").unwrap();
        assert!(list.iter().all(|password| pattern.is_match(password)));
    }
    let list = generate_list(None).unwrap();
    assert!(list.iter().all(|password| password.len() == 16));
}

#[test]
fn lists_reject_counts_out_of_bounds() {
    for count in 0..16u8 {
        let rejected = generate_list(Some(count));
        assert_eq!(rejected, Err(Error::InvalidLength(LengthRule::List)));
        assert_eq!(
            rejected.unwrap_err().message(),
            "Error: generate list should have a count between 16 and 255."
        );
    }
}

#[test]
fn length_rules_accept_their_bounds() {
    assert!(!LengthRule::Words.accepts(12));
    assert!(LengthRule::Words.accepts(13));
    assert!(LengthRule::Words.accepts(64));
    assert!(!LengthRule::Words.accepts(65));
    assert!(!LengthRule::Numbers.accepts(0));
    assert!(LengthRule::Numbers.accepts(1));
    assert!(LengthRule::Numbers.accepts(4));
    assert!(!LengthRule::Numbers.accepts(5));
    assert!(!LengthRule::Password.accepts(15));
    assert!(LengthRule::Password.accepts(16));
    assert!(LengthRule::Password.accepts(64));
    assert!(!LengthRule::Password.accepts(65));
    assert!(!LengthRule::List.accepts(15));
    assert!(LengthRule::List.accepts(16));
    assert!(LengthRule::List.accepts(255));
}

#[test]
fn every_error_has_its_message() {
    assert_eq!(
        Error::InvalidLength(LengthRule::Words).message(),
        "Error by generating words: length parameter should be between 13 and 64."
    );
    assert_eq!(
        Error::InvalidLength(LengthRule::Numbers).message(),
        "Error by generating words: length parameter should be between 1 and 4."
    );
    assert_eq!(
        Error::InvalidLength(LengthRule::Password).message(),
        "Error: generate password should have a length between 16 and 64."
    );
    assert_eq!(
        Error::InvalidLength(LengthRule::List).message(),
        "Error: generate list should have a count between 16 and 255."
    );
    assert_eq!(
        Error::TooShort.message(),
        "Error when checking entropy: password length should be at least 16 characters."
    );
    assert_eq!(
        Error::IoFailure(Transfer::Read).message(),
        "Error: cannot read file."
    );
    assert_eq!(
        Error::IoFailure(Transfer::Write).message(),
        "Error: couldn't write passwords to file."
    );
}
