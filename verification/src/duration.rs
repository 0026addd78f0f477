//! The total length of a duration expression.

use vstd::prelude::*;
use crate::error::ParseError;
use crate::error::ParseFault;
use crate::grammar::all_digits;
use crate::grammar::all_fit;
use crate::grammar::decimal_value;
use crate::grammar::lemma_faults_of_the_grammar;
use crate::grammar::lemma_lex_concat;
use crate::grammar::lex;
use crate::grammar::read;
use crate::grammar::InputParser;
use crate::shape::is_expression;
use crate::shape::is_unit_letter;
use crate::shape::lemma_reads_the_grammar;
use crate::shape::lemma_single_token;
use crate::units::pieces_of;
use crate::units::Piece;
use crate::units::Token;
use crate::units::Unit;

verus! {

/// The sum of the lengths of `pieces` in seconds.
pub open spec fn total_seconds(pieces: Seq<Piece>) -> nat
    decreases pieces.len(),
{
    if pieces.len() == 0 {
        0
    } else {
        total_seconds(pieces.drop_last()) + pieces.last().seconds()
    }
}

/// The total of `pieces` in seconds, refused where a `u64` cannot hold it.
pub open spec fn checked_total(pieces: Seq<Piece>) -> Result<nat, ParseFault> {
    if total_seconds(pieces) > u64::MAX {
        Err(ParseFault::NumericOverflow)
    } else {
        Ok(total_seconds(pieces))
    }
}

/// What a duration expression means: the number of seconds that its tokens add
/// up to, or why it is refused. It is refused for the first fault of the
/// grammar from the left, and without one, where the total is more seconds than
/// a `u64` holds.
pub open spec fn parse_seconds(s: Seq<char>) -> Result<nat, ParseFault> {
    match read(s) {
        Err(fault) => Err(fault),
        Ok(pieces) => checked_total(pieces),
    }
}

/// The total of a prefix of `pieces` is never more than the total of `pieces`.
pub proof fn lemma_total_grows(pieces: Seq<Piece>, n: int)
    requires
        0 <= n <= pieces.len(),
    ensures
        total_seconds(pieces.take(n)) <= total_seconds(pieces),
    decreases pieces.len() - n,
{
    if n == pieces.len() {
        assert(pieces.take(n) =~= pieces);
    } else {
        lemma_total_grows(pieces.drop_last(), n);
        assert(pieces.drop_last().take(n) =~= pieces.take(n));
    }
}

/// The total is at least the length of each of the pieces, and so at least the
/// count of each.
pub proof fn lemma_total_covers(pieces: Seq<Piece>, i: int)
    requires
        0 <= i < pieces.len(),
    ensures
        pieces[i].count <= pieces[i].seconds() <= total_seconds(pieces),
{
    let upto = pieces.take(i + 1);
    lemma_total_grows(pieces, i + 1);
    assert(upto.last() == pieces[i]);
    assert(total_seconds(upto) >= upto.last().seconds());
    assert(pieces[i].count * pieces[i].unit.spec_scale() >= pieces[i].count) by (nonlinear_arith)
        requires
            pieces[i].unit.spec_scale() >= 1,
    ;
}

/// The total of two sequences of pieces, one behind the other, is the sum of
/// their totals.
pub proof fn lemma_total_concat(a: Seq<Piece>, b: Seq<Piece>)
    ensures
        total_seconds(a + b) == total_seconds(a) + total_seconds(b),
    decreases b.len(),
{
    if b.len() == 0 {
        assert(a + b =~= a);
    } else {
        assert((a + b).drop_last() =~= a + b.drop_last());
        lemma_total_concat(a, b.drop_last());
    }
}

/// Writing one expression behind another adds their lengths. Two words of the
/// grammar, one behind the other, are a word of the grammar whose tokens add up
/// to the sum of the two totals. So where both are accepted, the two together
/// mean the sum of what they mean, and are refused for overflow exactly where
/// that sum is more than a `u64` holds.
pub proof fn lemma_concat_adds(a: Seq<char>, b: Seq<char>)
    requires
        read(a) is Ok,
        read(b) is Ok,
    ensures
        read(a + b) == Ok::<Seq<Piece>, ParseFault>(read(a)->Ok_0 + read(b)->Ok_0),
        total_seconds(read(a + b)->Ok_0) == total_seconds(read(a)->Ok_0) + total_seconds(
            read(b)->Ok_0,
        ),
        parse_seconds(a) is Ok && parse_seconds(b) is Ok ==> parse_seconds(a + b) == (
        if parse_seconds(a)->Ok_0 + parse_seconds(b)->Ok_0 > u64::MAX {
            Err::<nat, ParseFault>(ParseFault::NumericOverflow)
        } else {
            Ok::<nat, ParseFault>(parse_seconds(a)->Ok_0 + parse_seconds(b)->Ok_0)
        }),
{
    lemma_lex_concat(a, b);
    lemma_total_concat(lex(a)->Ok_0, lex(b)->Ok_0);
}

/// A count followed by a unit letter means that count times the scale of the
/// unit, and is refused for overflow exactly where that is more seconds than a
/// `u64` holds.
pub proof fn lemma_token_scales(run: Seq<char>, letter: char)
    requires
        run.len() > 0,
        all_digits(run),
        is_unit_letter(letter),
    ensures
        parse_seconds(run.push(letter)) == (if decimal_value(run) * Unit::spec_from_letter(
            letter,
        )->Some_0.spec_scale() > u64::MAX {
            Err::<nat, ParseFault>(ParseFault::NumericOverflow)
        } else {
            Ok::<nat, ParseFault>(
                decimal_value(run) * Unit::spec_from_letter(letter)->Some_0.spec_scale(),
            )
        }),
{
    lemma_single_token(run, letter);
    let pieces = read(run.push(letter))->Ok_0;
    assert(total_seconds(pieces.drop_last()) == 0);
}

/// A token with a count of zero means no time at all, and leaves the meaning of
/// an accepted expression as it is, written before it or behind it.
pub proof fn lemma_zero_token_adds_nothing(a: Seq<char>, run: Seq<char>, letter: char)
    requires
        parse_seconds(a) is Ok,
        run.len() > 0,
        all_digits(run),
        decimal_value(run) == 0,
        is_unit_letter(letter),
    ensures
        parse_seconds(run.push(letter)) == Ok::<nat, ParseFault>(0),
        parse_seconds(a + run.push(letter)) == parse_seconds(a),
        parse_seconds(run.push(letter) + a) == parse_seconds(a),
{
    lemma_token_scales(run, letter);
    lemma_concat_adds(a, run.push(letter));
    lemma_concat_adds(run.push(letter), a);
}

/// When an expression is refused, and for what. It has a fault of the grammar
/// exactly where it is no word of `([0-9]+[smh])+`; it overflows exactly where
/// it is such a word and its tokens add up to more seconds than a `u64` holds;
/// and it is accepted exactly where it is such a word and they do not.
pub proof fn lemma_refused_exactly(s: Seq<char>)
    ensures
        parse_seconds(s) is Ok <==> is_expression(s) && total_seconds(read(s)->Ok_0) <= u64::MAX,
        parse_seconds(s) == Err::<nat, ParseFault>(ParseFault::NumericOverflow) <==> is_expression(
            s,
        ) && total_seconds(read(s)->Ok_0) > u64::MAX,
        !is_expression(s) <==> parse_seconds(s) is Err && (parse_seconds(s)->Err_0
            is MalformedToken || parse_seconds(s)->Err_0 is UnrecognisedUnit),
{
    lemma_reads_the_grammar(s);
    lemma_faults_of_the_grammar(s);
}

/// A length of time in whole seconds.
#[derive(Clone, Copy, Debug, PartialEq, Eq, Structural)]
pub struct Time {
    secs: u64,
}

impl View for Time {
    type V = nat;

    /// The number of seconds.
    closed spec fn view(&self) -> nat {
        self.secs as nat
    }
}

impl Time {
    /// The length of `secs` seconds.
    pub fn from_secs(secs: u64) -> (time: Time)
        ensures
            time@ == secs,
    {
        Time { secs }
    }

    /// The number of whole seconds.
    pub fn as_secs(&self) -> (secs: u64)
        ensures
            secs == self@,
    {
        self.secs
    }

    /// Adds up `tokens`.
    ///
    /// Returns the total, or `NumericOverflow` where it is more seconds than a
    /// `u64` holds.
    pub fn from_tokens(tokens: &Vec<Token>) -> (r: Result<Time, ParseError>)
        ensures
            match r {
                Ok(time) => checked_total(pieces_of(tokens@)) == Ok::<nat, ParseFault>(time@),
                Err(e) => checked_total(pieces_of(tokens@)) == Err::<nat, ParseFault>(e@),
            },
    {
        let ghost pieces = pieces_of(tokens@);
        let mut total: u64 = 0;
        let mut i: usize = 0;
        while i < tokens.len()
            invariant
                i <= tokens.len(),
                pieces == pieces_of(tokens@),
                total == total_seconds(pieces.take(i as int)),
            decreases tokens.len() - i,
        {
            proof {
                assert(pieces.take(i + 1).drop_last() =~= pieces.take(i as int));
                assert(pieces.take(i + 1).last() == tokens[i as int]@);
                lemma_total_grows(pieces, i + 1);
            }
            let next = match tokens[i].seconds() {
                Some(secs) => total.checked_add(secs),
                None => None,
            };
            match next {
                Some(sum) => {
                    total = sum;
                },
                None => {
                    return Err(ParseError::NumericOverflow);
                },
            }
            i = i + 1;
        }
        proof {
            assert(pieces.take(i as int) =~= pieces);
        }
        Ok(Time { secs: total })
    }

    /// Reads the duration expression `input`.
    ///
    /// Returns the total of its tokens in seconds. Where a piece of `input` is
    /// no token, returns the fault of the first such piece from the left.
    /// Where all are tokens and add up to more seconds than a `u64` holds,
    /// returns `NumericOverflow`.
    pub fn parse(input: &str) -> (r: Result<Time, ParseError>)
        ensures
            match r {
                Ok(time) => parse_seconds(input@) == Ok::<nat, ParseFault>(time@),
                Err(e) => parse_seconds(input@) == Err::<nat, ParseFault>(e@),
            },
    {
        match InputParser::parse(input) {
            Ok(tokens) => Time::from_tokens(&tokens),
            Err(e) => {
                proof {
                    if let Ok(pieces) = read(input@) {
                        let i = choose|i: int| 0 <= i < pieces.len() && !(#[trigger] pieces[i]).fits();
                        lemma_total_covers(pieces, i);
                    }
                }
                Err(e)
            },
        }
    }

    /// Reads the duration expression `value`, as [`Time::parse`] does.
    pub fn try_from(value: String) -> (r: Result<Time, ParseError>)
        ensures
            match r {
                Ok(time) => parse_seconds(value@) == Ok::<nat, ParseFault>(time@),
                Err(e) => parse_seconds(value@) == Err::<nat, ParseFault>(e@),
            },
    {
        Time::parse(value.as_str())
    }
}

} // verus!
