//! The units of a duration expression and the tokens built from them.

use vstd::prelude::*;

verus! {

/// A unit of time that a token can name.
#[derive(Clone, Copy, Debug, PartialEq, Eq, Structural)]
pub enum Unit {
    /// Written `s`.
    Second,
    /// Written `m`.
    Minute,
    /// Written `h`.
    Hour,
}

impl Unit {
    /// How many seconds one of this unit lasts.
    pub open spec fn spec_scale(self) -> nat {
        match self {
            Unit::Second => 1,
            Unit::Minute => 60,
            Unit::Hour => 3600,
        }
    }

    /// The unit that the letter `c` names, if it names one. Only the lower-case
    /// letters `s`, `m` and `h` do.
    pub open spec fn spec_from_letter(c: char) -> Option<Unit> {
        if c == 's' {
            Some(Unit::Second)
        } else if c == 'm' {
            Some(Unit::Minute)
        } else if c == 'h' {
            Some(Unit::Hour)
        } else {
            None
        }
    }

    /// How many seconds one of this unit lasts.
    pub fn scale(self) -> (factor: u64)
        ensures
            factor == self.spec_scale(),
    {
        match self {
            Unit::Second => 1,
            Unit::Minute => 60,
            Unit::Hour => 3600,
        }
    }

    /// The unit that the letter `c` names, if it names one.
    pub fn from_letter(c: char) -> (unit: Option<Unit>)
        ensures
            unit == Unit::spec_from_letter(c),
    {
        if c == 's' {
            Some(Unit::Second)
        } else if c == 'm' {
            Some(Unit::Minute)
        } else if c == 'h' {
            Some(Unit::Hour)
        } else {
            None
        }
    }
}

/// One `(magnitude, unit)` pair of a duration expression, such as `30m`.
#[derive(Clone, Copy, Debug, PartialEq, Eq, Structural)]
pub struct Token {
    /// How many of the unit.
    pub magnitude: u64,
    /// The unit counted.
    pub unit: Unit,
}

/// A token as a mathematical value: a count of any size, and a unit.
pub ghost struct Piece {
    /// How many of the unit.
    pub count: nat,
    /// The unit counted.
    pub unit: Unit,
}

impl Piece {
    /// The length of this piece in seconds.
    pub open spec fn seconds(self) -> nat {
        self.count * self.unit.spec_scale()
    }

    /// Whether the count is one that a `u64` holds.
    pub open spec fn fits(self) -> bool {
        self.count <= u64::MAX
    }
}

impl View for Token {
    type V = Piece;

    open spec fn view(&self) -> Piece {
        Piece { count: self.magnitude as nat, unit: self.unit }
    }
}

/// The tokens of `tokens` as mathematical values.
pub open spec fn pieces_of(tokens: Seq<Token>) -> Seq<Piece> {
    tokens.map_values(|token: Token| token@)
}

impl Token {
    /// The length of this token in seconds, or `None` where that does not fit
    /// in a `u64`.
    pub fn seconds(self) -> (secs: Option<u64>)
        ensures
            self@.seconds() <= u64::MAX ==> secs == Some(self@.seconds() as u64),
            self@.seconds() > u64::MAX ==> secs is None,
    {
        self.magnitude.checked_mul(self.unit.scale())
    }
}

} // verus!
