//! What can go wrong, and the message that reports it.

use vstd::prelude::*;

verus! {

/// The generators that take a length or a count, each with its own bounds.
#[derive(Debug, Clone, Copy, PartialEq, Eq, Structural)]
pub enum LengthRule {
    /// A word has 13 to 64 letters.
    Words,
    /// A run of digits has 1 to 4 digits.
    Numbers,
    /// A password has 16 to 64 characters.
    Password,
    /// A list has 16 to 255 passwords.
    List,
}

/// The two directions in which a list travels to and from storage.
#[derive(Debug, Clone, Copy, PartialEq, Eq, Structural)]
pub enum Transfer {
    Read,
    Write,
}

/// Every failure this library reports.
#[derive(Debug, Clone, Copy, PartialEq, Eq, Structural)]
pub enum Error {
    /// A length or count lies outside the bounds of the rule named.
    InvalidLength(LengthRule),
    /// A password handed to the entropy estimator has fewer than 16 characters.
    TooShort,
    /// A list could not be read from, or written to, storage.
    IoFailure(Transfer),
}

impl LengthRule {
    /// The smallest length or count that the rule accepts.
    pub open spec fn lowest(self) -> int {
        match self {
            LengthRule::Words => 13,
            LengthRule::Numbers => 1,
            LengthRule::Password => 16,
            LengthRule::List => 16,
        }
    }

    /// The largest length or count that the rule accepts.
    pub open spec fn highest(self) -> int {
        match self {
            LengthRule::Words => 64,
            LengthRule::Numbers => 4,
            LengthRule::Password => 64,
            LengthRule::List => 255,
        }
    }

    /// Whether `length` lies within the rule's bounds, both inclusive.
    pub open spec fn admits(self, length: int) -> bool {
        self.lowest() <= length <= self.highest()
    }

    /// Tests a length or count against the rule's bounds.
    pub fn accepts(&self, length: u8) -> (ok: bool)
        ensures
            ok == self.admits(length as int),
    {
        match self {
            LengthRule::Words => 13 <= length && length <= 64,
            LengthRule::Numbers => 1 <= length && length <= 4,
            LengthRule::Password => 16 <= length && length <= 64,
            LengthRule::List => 16 <= length,
        }
    }
}

impl Error {
    /// The text of the message that reports the failure.
    pub open spec fn text(self) -> Seq<char> {
        match self {
            Error::InvalidLength(LengthRule::Words) =>
                "Error by generating words: length parameter should be between 13 and 64."@,
            Error::InvalidLength(LengthRule::Numbers) =>
                "Error by generating words: length parameter should be between 1 and 4."@,
            Error::InvalidLength(LengthRule::Password) =>
                "Error: generate password should have a length between 16 and 64."@,
            Error::InvalidLength(LengthRule::List) =>
                "Error: generate list should have a count between 16 and 255."@,
            Error::TooShort =>
                "Error when checking entropy: password length should be at least 16 characters."@,
            Error::IoFailure(Transfer::Read) => "Error: cannot read file."@,
            Error::IoFailure(Transfer::Write) => "Error: couldn't write passwords to file."@,
        }
    }

    /// The message that reports the failure.
    pub fn message(&self) -> (message: String)
        ensures
            message@ == self.text(),
    {
        match self {
            Error::InvalidLength(LengthRule::Words) =>
                "Error by generating words: length parameter should be between 13 and 64.".to_owned(),
            Error::InvalidLength(LengthRule::Numbers) =>
                "Error by generating words: length parameter should be between 1 and 4.".to_owned(),
            Error::InvalidLength(LengthRule::Password) =>
                "Error: generate password should have a length between 16 and 64.".to_owned(),
            Error::InvalidLength(LengthRule::List) =>
                "Error: generate list should have a count between 16 and 255.".to_owned(),
            Error::TooShort =>
                "Error when checking entropy: password length should be at least 16 characters.".to_owned(),
            Error::IoFailure(Transfer::Read) => "Error: cannot read file.".to_owned(),
            Error::IoFailure(Transfer::Write) => "Error: couldn't write passwords to file.".to_owned(),
        }
    }
}

} // verus!
