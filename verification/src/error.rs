//! Why a duration expression is refused, and why a request to wait is.

use vstd::prelude::*;
use vstd::std_specs::convert::FromSpecImpl;

verus! {

/// Why a duration expression is refused.
#[derive(Debug, PartialEq, Eq)]
pub enum ParseError {
    /// A token ends in a letter that names no unit; the letter.
    UnrecognisedUnit(char),
    /// A piece of the input is no token: its count is missing or holds
    /// something other than digits, or no unit letter ends it. The piece,
    /// which is empty where the input is.
    MalformedToken(String),
    /// Every piece of the input is a token, but a count is more than a `u64`
    /// holds, or the total is more seconds than one holds.
    NumericOverflow,
}

/// A [`ParseError`] as a mathematical value: the fragment of a malformed token
/// is a sequence of characters.
pub ghost enum ParseFault {
    /// The letter that names no unit.
    UnrecognisedUnit(char),
    /// The piece that is no token.
    MalformedToken(Seq<char>),
    /// A count or the total is too large.
    NumericOverflow,
}

impl View for ParseError {
    type V = ParseFault;

    open spec fn view(&self) -> ParseFault {
        match self {
            ParseError::UnrecognisedUnit(c) => ParseFault::UnrecognisedUnit(*c),
            ParseError::MalformedToken(fragment) => ParseFault::MalformedToken(fragment@),
            ParseError::NumericOverflow => ParseFault::NumericOverflow,
        }
    }
}

impl Clone for ParseError {
    fn clone(&self) -> (copy: ParseError)
        ensures
            copy == *self,
    {
        match self {
            ParseError::UnrecognisedUnit(c) => ParseError::UnrecognisedUnit(*c),
            ParseError::MalformedToken(fragment) => ParseError::MalformedToken(fragment.clone()),
            ParseError::NumericOverflow => ParseError::NumericOverflow,
        }
    }
}

/// Why a request to wait is refused.
#[derive(Debug, PartialEq, Eq)]
pub enum WaitError {
    /// The command line does not hold exactly one argument.
    InvalidArgs,
    /// The argument is no duration expression; why.
    CannotParse(ParseError),
}

/// A [`WaitError`] as a mathematical value.
pub ghost enum WaitFault {
    /// The command line does not hold exactly one argument.
    InvalidArgs,
    /// The argument is no duration expression; why.
    CannotParse(ParseFault),
}

impl View for WaitError {
    type V = WaitFault;

    open spec fn view(&self) -> WaitFault {
        match self {
            WaitError::InvalidArgs => WaitFault::InvalidArgs,
            WaitError::CannotParse(e) => WaitFault::CannotParse(e@),
        }
    }
}

impl Clone for WaitError {
    fn clone(&self) -> (copy: WaitError)
        ensures
            copy == *self,
    {
        match self {
            WaitError::InvalidArgs => WaitError::InvalidArgs,
            WaitError::CannotParse(e) => WaitError::CannotParse(e.clone()),
        }
    }
}

impl From<ParseError> for WaitError {
    fn from(value: ParseError) -> (e: WaitError) {
        WaitError::CannotParse(value)
    }
}

impl FromSpecImpl<ParseError> for WaitError {
    open spec fn obeys_from_spec() -> bool {
        true
    }

    open spec fn from_spec(value: ParseError) -> WaitError {
        WaitError::CannotParse(value)
    }
}

} // verus!
