//! What one token of the argument sequence says.
use crate::grammar::{
    all_digits, all_letters, decimal, decimal_value, lemma_split_unique, lemma_well_formed_parts,
    numeral_of, same_text, split, suffix_of, value_of, well_formed,
};
use crate::units::{normalise_unit, unit_of, Unit};
use vstd::prelude::*;

verus! {

/// A classified token. Every text has exactly one class.
#[derive(Debug, PartialEq, Eq)]
pub enum Token {
    /// The flag `-m`: the count is in minutes.
    MinutesFlag,
    /// The flag `-q`: say nothing while running.
    QuietFlag,
    /// A bare numeral, with its value.
    Numeral(u64),
    /// A numeral directly followed by letters: the value and the letters.
    CompoundDuration(u64, String),
    /// Anything else.
    Invalid,
}

/// A token as contracts see it: the letters of a compound are a sequence of
/// characters.
pub enum TokenView {
    MinutesFlag,
    QuietFlag,
    Numeral(u64),
    CompoundDuration(u64, Seq<char>),
    Invalid,
}

impl View for Token {
    type V = TokenView;

    open spec fn view(&self) -> TokenView {
        match self {
            Token::MinutesFlag => TokenView::MinutesFlag,
            Token::QuietFlag => TokenView::QuietFlag,
            Token::Numeral(value) => TokenView::Numeral(*value),
            Token::CompoundDuration(value, letters) => TokenView::CompoundDuration(
                *value,
                letters@,
            ),
            Token::Invalid => TokenView::Invalid,
        }
    }
}

/// What is wrong with a token. None of it stops a run: a token with an issue
/// is passed over in part or in whole, and the tokens after it are read as if
/// it had not been there.
#[derive(Clone, Copy, Debug, PartialEq, Eq, Structural)]
pub enum Issue {
    /// The token is neither a flag nor a duration.
    InvalidToken,
    /// The letters of a compound spell no unit. Its numeral counts all the
    /// same.
    UnrecognizedUnit,
    /// The numeral is zero, so the token sets no count.
    ZeroDuration,
}

impl TokenView {
    /// The number that the token carries, if it carries one.
    pub open spec fn value(self) -> Option<u64> {
        match self {
            TokenView::Numeral(value) => Some(value),
            TokenView::CompoundDuration(value, _) => Some(value),
            _ => None,
        }
    }

    /// The unit that the letters of a compound spell, if they spell one.
    pub open spec fn unit(self) -> Option<Unit> {
        match self {
            TokenView::CompoundDuration(_, letters) => unit_of(letters),
            _ => None,
        }
    }

    /// What is wrong with the token, if anything is. A numeral of zero is an
    /// issue whatever follows it; the letters of a compound are looked at
    /// only where its numeral is above zero.
    pub open spec fn issue(self) -> Option<Issue> {
        match self {
            TokenView::MinutesFlag => None,
            TokenView::QuietFlag => None,
            TokenView::Numeral(value) => if value == 0 {
                Some(Issue::ZeroDuration)
            } else {
                None
            },
            TokenView::CompoundDuration(value, letters) => if value == 0 {
                Some(Issue::ZeroDuration)
            } else if unit_of(letters) is None {
                Some(Issue::UnrecognizedUnit)
            } else {
                None
            },
            TokenView::Invalid => Some(Issue::InvalidToken),
        }
    }
}

impl Token {
    /// The unit of a compound whose letters spell one.
    pub fn unit(&self) -> (unit: Option<Unit>)
        ensures
            unit == self@.unit(),
    {
        match self {
            Token::CompoundDuration(_, letters) => normalise_unit(letters.as_str()),
            _ => None,
        }
    }

    /// What is wrong with the token, if anything is.
    pub fn issue(&self) -> (issue: Option<Issue>)
        ensures
            issue == self@.issue(),
    {
        match self {
            Token::MinutesFlag => None,
            Token::QuietFlag => None,
            Token::Numeral(value) => if *value == 0 {
                Some(Issue::ZeroDuration)
            } else {
                None
            },
            Token::CompoundDuration(value, letters) => if *value == 0 {
                Some(Issue::ZeroDuration)
            } else {
                match normalise_unit(letters.as_str()) {
                    None => Some(Issue::UnrecognizedUnit),
                    Some(_) => None,
                }
            },
            Token::Invalid => Some(Issue::InvalidToken),
        }
    }
}

/// The class of a text.
///
/// The two flags are matched as whole texts. A duration is digits, then
/// letters, with at least one digit, whose numeral fits in 64 bits: bare, it is
/// a `Numeral`; followed by letters, a `CompoundDuration`. Everything else is
/// `Invalid`: the empty text, letters alone, a sign, a blank, a digit after a
/// letter, a numeral that does not fit.
pub open spec fn token_of(text: Seq<char>) -> TokenView {
    if text == "-m"@ {
        TokenView::MinutesFlag
    } else if text == "-q"@ {
        TokenView::QuietFlag
    } else if well_formed(text) {
        match value_of(numeral_of(text)) {
            Some(value) => if suffix_of(text).len() == 0 {
                TokenView::Numeral(value)
            } else {
                TokenView::CompoundDuration(value, suffix_of(text))
            },
            None => TokenView::Invalid,
        }
    } else {
        TokenView::Invalid
    }
}

/// The flags are the two texts `-m` and `-q` and no others.
pub proof fn lemma_flag_texts(text: Seq<char>)
    ensures
        token_of(text) is MinutesFlag <==> text == "-m"@,
        token_of(text) is QuietFlag <==> text == "-q"@,
{
    reveal_strlit("-m");
    reveal_strlit("-q");
    assert("-m"@[1] != "-q"@[1]);
}

/// A duration is a text of the grammar whose numeral has a value: neither
/// flag is such a text, so the flags take nothing away.
pub proof fn lemma_duration_iff(text: Seq<char>)
    ensures
        token_of(text).value() is Some <==> well_formed(text) && value_of(numeral_of(text))
            is Some,
        token_of(text).value() is Some ==> token_of(text).value() == value_of(numeral_of(text)),
{
    reveal_strlit("-m");
    reveal_strlit("-q");
    if well_formed(text) && value_of(numeral_of(text)) is Some {
        lemma_well_formed_parts(text);
        assert(text[0] == numeral_of(text)[0]);
        assert(text[0] != "-m"@[0]);
        assert(text[0] != "-q"@[0]);
    }
}

/// What is cut into one or more digits and then letters is a duration, where
/// the digits write a number of 64 bits: a numeral with no letters, a
/// compound with some. Its value is that number, and the letters are kept as
/// they are.
pub proof fn lemma_duration_from_parts(text: Seq<char>, digits: Seq<char>, letters: Seq<char>)
    requires
        text == digits + letters,
        digits.len() > 0,
        all_digits(digits),
        all_letters(letters),
        decimal(digits) <= u64::MAX,
    ensures
        letters.len() == 0 ==> token_of(text) == TokenView::Numeral(decimal(digits) as u64),
        letters.len() > 0 ==> token_of(text) == TokenView::CompoundDuration(
            decimal(digits) as u64,
            letters,
        ),
{
    reveal_strlit("-m");
    reveal_strlit("-q");
    assert(text[0] == digits[0]);
    assert(text[0] != "-m"@[0]);
    assert(text[0] != "-q"@[0]);
    lemma_split_unique(text, digits, letters);
}

/// Every duration is cut in that way: it begins with one or more digits that
/// write its value, and letters alone follow them.
pub proof fn lemma_duration_parts(text: Seq<char>)
    requires
        token_of(text).value() is Some,
    ensures
        text == numeral_of(text) + suffix_of(text),
        numeral_of(text).len() > 0,
        all_digits(numeral_of(text)),
        all_letters(suffix_of(text)),
        token_of(text).value() == Some(decimal(numeral_of(text)) as u64),
        decimal(numeral_of(text)) <= u64::MAX,
{
    lemma_well_formed_parts(text);
}

/// Classifies one token.
pub fn classify(token: &str) -> (class: Token)
    ensures
        class@ == token_of(token@),
{
    if same_text(token, "-m") {
        return Token::MinutesFlag;
    }
    if same_text(token, "-q") {
        return Token::QuietFlag;
    }
    match split(token) {
        None => Token::Invalid,
        Some((numeral, letters)) => match decimal_value(numeral.as_str()) {
            None => Token::Invalid,
            Some(value) => if letters.as_str().is_empty() {
                Token::Numeral(value)
            } else {
                Token::CompoundDuration(value, letters)
            },
        },
    }
}

} // verus!
