//! The grammar of duration expressions.
//!
//! An expression is one or more tokens written one after another with nothing
//! between them. A token is one or more ASCII digits followed by one of the
//! letters `s`, `m`, `h`. White space is part of no token, so an expression
//! that holds any is refused.
//!
//! The input is cut after each ASCII letter. Each piece must then be a token:
//! the characters before its letter, the run, must be digits, and at least one.
//! Characters outside ASCII are never letters here, so they make the piece they
//! stand in malformed.
//!
//! An expression is refused for the first piece from the left that is no token.
//! Only an expression of tokens throughout can be refused for overflow, so the
//! two kinds of refusal never stand for one another.

use vstd::prelude::*;
use vstd::std_specs::iter::IteratorSpec;
use vstd::string::StrSliceExecFns;
use crate::error::ParseError;
use crate::error::ParseFault;
use crate::units::pieces_of;
use crate::units::Piece;
use crate::units::Token;
use crate::units::Unit;

verus! {

/// Whether `c` is an ASCII letter, the character that ends a piece of the input.
pub open spec fn is_letter(c: char) -> bool {
    ('a' <= c && c <= 'z') || ('A' <= c && c <= 'Z')
}

/// Whether `c` is an ASCII digit.
pub open spec fn is_digit(c: char) -> bool {
    '0' <= c && c <= '9'
}

/// The number that the digit `c` stands for.
pub open spec fn digit_value(c: char) -> nat {
    (c as nat - '0' as nat) as nat
}

/// Whether every character of `run` is an ASCII digit.
pub open spec fn all_digits(run: Seq<char>) -> bool {
    forall|i: int| 0 <= i < run.len() ==> is_digit(#[trigger] run[i])
}

/// The number that a run of digits writes in base ten; 0 for the empty run.
pub open spec fn decimal_value(run: Seq<char>) -> nat
    decreases run.len(),
{
    if run.len() == 0 {
        0
    } else {
        decimal_value(run.drop_last()) * 10 + digit_value(run.last())
    }
}

/// How many characters stand before the first letter of `s`; the length of `s`
/// where it holds no letter.
pub open spec fn run_len(s: Seq<char>) -> nat
    decreases s.len(),
{
    if s.len() == 0 || is_letter(s[0]) {
        0
    } else {
        1 + run_len(s.skip(1))
    }
}

/// The piece at the front of the non-empty `s` with the number of characters
/// that it spans, or why the front of `s` is no token.
///
/// The front is looked at in this order: that a letter ends it, that its run is
/// a count, that the letter names a unit.
pub open spec fn leading_piece(s: Seq<char>) -> Result<(Piece, nat), ParseFault> {
    let k = run_len(s) as int;
    if k >= s.len() {
        Err(ParseFault::MalformedToken(s))
    } else if k == 0 || !all_digits(s.take(k)) {
        Err(ParseFault::MalformedToken(s.take(k + 1)))
    } else {
        match Unit::spec_from_letter(s[k]) {
            None => Err(ParseFault::UnrecognisedUnit(s[k])),
            Some(unit) => Ok((Piece { count: decimal_value(s.take(k)), unit }, (k + 1) as nat)),
        }
    }
}

/// `pieces` followed by what `rest` holds, or the fault of `rest`.
pub open spec fn prepend(pieces: Seq<Piece>, rest: Result<Seq<Piece>, ParseFault>) -> Result<
    Seq<Piece>,
    ParseFault,
> {
    match rest {
        Ok(more) => Ok(pieces + more),
        Err(fault) => Err(fault),
    }
}

/// The pieces of `s` from left to right, or the fault of the first that is no
/// token. The empty sequence has no pieces and no fault.
pub open spec fn lex(s: Seq<char>) -> Result<Seq<Piece>, ParseFault>
    decreases s.len(),
{
    if s.len() == 0 {
        Ok(Seq::empty())
    } else {
        match leading_piece(s) {
            Err(fault) => Err(fault),
            Ok((piece, n)) => prepend(seq![piece], lex(s.skip(n as int))),
        }
    }
}

/// What a duration expression holds by the grammar alone: its pieces in order,
/// whatever the size of their counts, or the fault of the first that is no
/// token. The empty expression is refused as a malformed token with an empty
/// fragment.
pub open spec fn read(s: Seq<char>) -> Result<Seq<Piece>, ParseFault> {
    if s.len() == 0 {
        Err(ParseFault::MalformedToken(s))
    } else {
        lex(s)
    }
}

/// Whether every count among `pieces` is one that a `u64` holds.
pub open spec fn all_fit(pieces: Seq<Piece>) -> bool {
    forall|i: int| 0 <= i < pieces.len() ==> (#[trigger] pieces[i]).fits()
}

/// What a duration expression holds as tokens: what [`read`] finds in it, and
/// an overflow where one of the counts is more than a `u64` holds.
pub open spec fn tokenize(s: Seq<char>) -> Result<Seq<Piece>, ParseFault> {
    match read(s) {
        Err(fault) => Err(fault),
        Ok(pieces) => if all_fit(pieces) {
            Ok(pieces)
        } else {
            Err(ParseFault::NumericOverflow)
        },
    }
}

/// The leading run of `s` is never longer than `s`, holds no letter, and is
/// followed by a letter where anything follows it.
pub proof fn lemma_run_len(s: Seq<char>)
    ensures
        run_len(s) <= s.len(),
        forall|i: int| 0 <= i < run_len(s) ==> !is_letter(#[trigger] s[i]),
        run_len(s) < s.len() ==> is_letter(s[run_len(s) as int]),
    decreases s.len(),
{
    if s.len() == 0 || is_letter(s[0]) {
    } else {
        let t = s.skip(1);
        lemma_run_len(t);
        assert forall|i: int| 0 <= i < run_len(s) implies !is_letter(#[trigger] s[i]) by {
            if i > 0 {
                assert(s[i] == t[i - 1]);
            }
        }
    }
}

/// A prefix of `s` without letters that ends `s` or is followed by a letter is
/// the leading run of `s`.
pub proof fn lemma_run_len_unique(s: Seq<char>, k: int)
    requires
        0 <= k <= s.len(),
        forall|i: int| 0 <= i < k ==> !is_letter(#[trigger] s[i]),
        k < s.len() ==> is_letter(s[k]),
    ensures
        run_len(s) == k,
    decreases k,
{
    if k > 0 {
        let t = s.skip(1);
        assert(!is_letter(s[0]));
        assert forall|i: int| 0 <= i < k - 1 implies !is_letter(#[trigger] t[i]) by {
            assert(t[i] == s[i + 1]);
        }
        lemma_run_len_unique(t, k - 1);
    }
}

/// Nothing put in front of a result leaves it as it is.
pub proof fn lemma_prepend_nothing(rest: Result<Seq<Piece>, ParseFault>)
    ensures
        prepend(Seq::empty(), rest) == rest,
{
    if let Ok(more) = rest {
        assert(Seq::<Piece>::empty() + more =~= more);
    }
}

/// Putting `b` and then `a` in front of a result puts `a + b` in front of it.
pub proof fn lemma_prepend_twice(
    a: Seq<Piece>,
    b: Seq<Piece>,
    rest: Result<Seq<Piece>, ParseFault>,
)
    ensures
        prepend(a, prepend(b, rest)) == prepend(a + b, rest),
{
    if let Ok(more) = rest {
        assert(a + (b + more) =~= (a + b) + more);
    }
}

/// Where `a` holds only tokens, the pieces of `a` followed by `b` are the
/// pieces of `a` and then those of `b`.
pub proof fn lemma_lex_concat(a: Seq<char>, b: Seq<char>)
    requires
        lex(a) is Ok,
    ensures
        lex(a + b) == prepend(lex(a)->Ok_0, lex(b)),
    decreases a.len(),
{
    if a.len() == 0 {
        assert(a + b =~= b);
        lemma_prepend_nothing(lex(b));
    } else {
        let k = run_len(a) as int;
        let (piece, n) = leading_piece(a)->Ok_0;
        let ab = a + b;
        lemma_run_len(a);
        assert forall|i: int| 0 <= i < k implies !is_letter(#[trigger] ab[i]) by {
            assert(ab[i] == a[i]);
        }
        assert(ab[k] == a[k]);
        lemma_run_len_unique(ab, k);
        assert(ab.take(k) =~= a.take(k));
        assert(leading_piece(ab) == leading_piece(a));
        assert(ab.skip(n as int) =~= a.skip(n as int) + b);
        lemma_lex_concat(a.skip(n as int), b);
        lemma_prepend_twice(seq![piece], lex(a.skip(n as int))->Ok_0, lex(b));
    }
}

/// The grammar never refuses for overflow: its faults are malformed tokens and
/// unrecognised units.
pub proof fn lemma_faults_of_the_grammar(s: Seq<char>)
    ensures
        read(s) matches Err(fault) ==> fault is MalformedToken || fault is UnrecognisedUnit,
        lex(s) matches Err(fault) ==> fault is MalformedToken || fault is UnrecognisedUnit,
    decreases s.len(),
{
    if s.len() > 0 {
        if let Ok((piece, n)) = leading_piece(s) {
            lemma_faults_of_the_grammar(s.skip(n as int));
        }
    }
}

/// Whether `c` is an ASCII letter.
fn letter(c: char) -> (b: bool)
    ensures
        b == is_letter(c),
{
    (c >= 'a' && c <= 'z') || (c >= 'A' && c <= 'Z')
}

/// The number that `c` stands for, where `c` is an ASCII digit.
fn digit(c: char) -> (d: Option<u64>)
    ensures
        is_digit(c) ==> d == Some(digit_value(c) as u64),
        !is_digit(c) ==> d is None,
{
    if c >= '0' && c <= '9' {
        Some((c as u64) - ('0' as u64))
    } else {
        None
    }
}

/// The count `magnitude` with the digit `d` written behind it, or `None` where
/// that is more than a `u64` holds.
fn push_digit(magnitude: u64, d: u64) -> (r: Option<u64>)
    requires
        d <= 9,
    ensures
        magnitude * 10 + d <= u64::MAX ==> r == Some((magnitude * 10 + d) as u64),
        magnitude * 10 + d > u64::MAX ==> r is None,
{
    match magnitude.checked_mul(10) {
        Some(tens) => tens.checked_add(d),
        None => None,
    }
}

/// The characters of `input`, one by one.
fn characters(input: &str) -> (chars: Vec<char>)
    ensures
        chars@ == input@,
{
    let mut chars: Vec<char> = Vec::new();
    for c in it: input.chars()
        invariant
            it.seq() == input@,
            chars@ == it.seq().take(it.index()),
    {
        chars.push(c);
    }
    chars
}

/// The characters of `input` from `from` up to `to`, as a string of their own.
fn fragment(input: &str, from: usize, to: usize) -> (piece: String)
    requires
        from <= to <= input@.len(),
    ensures
        piece@ == input@.subrange(from as int, to as int),
{
    input.substring_char(from, to).to_owned()
}

/// What `scan_piece` finds where the front is a token: the count, or `None`
/// where it is more than a `u64` holds, the unit, and the index behind the
/// token.
struct Scanned {
    count: Option<u64>,
    unit: Unit,
    next: usize,
}

/// The piece of `input` that starts at `start`, or why there is none. `chars`
/// holds the characters of `input`.
fn scan_piece(input: &str, chars: &Vec<char>, start: usize) -> (r: Result<Scanned, ParseError>)
    requires
        chars@ == input@,
        start < chars.len(),
    ensures
        match r {
            Ok(found) => {
                &&& start < found.next <= chars.len()
                &&& leading_piece(input@.skip(start as int)) matches Ok((piece, n))
                &&& n == found.next - start
                &&& piece.unit == found.unit
                &&& match found.count {
                    Some(m) => piece.count == m,
                    None => !piece.fits(),
                }
            },
            Err(e) => leading_piece(input@.skip(start as int)) == Err::<(Piece, nat), ParseFault>(
                e@,
            ),
        },
{
    let n = chars.len();
    let ghost s = input@.skip(start as int);
    let mut end: usize = start;
    let mut digits_only = true;
    let mut count: Option<u64> = Some(0);
    while end < n && !letter(chars[end])
        invariant
            start <= end <= n,
            n == chars.len(),
            chars@ == input@,
            s == input@.skip(start as int),
            forall|i: int| 0 <= i < end - start ==> !is_letter(#[trigger] s[i]),
            digits_only == all_digits(s.take(end - start)),
            digits_only ==> match count {
                Some(m) => m == decimal_value(s.take(end - start)),
                None => decimal_value(s.take(end - start)) > u64::MAX,
            },
        decreases n - end,
    {
        let c = chars[end];
        let ghost run = s.take(end - start);
        let ghost longer = s.take(end - start + 1);
        proof {
            assert(longer.drop_last() =~= run);
            if all_digits(longer) {
                assert forall|i: int| 0 <= i < run.len() implies is_digit(#[trigger] run[i]) by {
                    assert(run[i] == longer[i]);
                }
                assert(is_digit(longer[end - start]));
            }
            if all_digits(run) && is_digit(c) {
                assert forall|i: int| 0 <= i < longer.len() implies is_digit(
                    #[trigger] longer[i],
                ) by {
                    if i < run.len() {
                        assert(longer[i] == run[i]);
                    }
                }
            }
        }
        match digit(c) {
            Some(d) => {
                if digits_only {
                    count = match count {
                        Some(m) => push_digit(m, d),
                        None => None,
                    };
                }
            },
            None => {
                digits_only = false;
            },
        }
        end = end + 1;
    }
    proof {
        lemma_run_len_unique(s, end - start);
    }
    if end == n {
        proof {
            assert(input@.subrange(start as int, n as int) =~= s);
        }
        return Err(ParseError::MalformedToken(fragment(input, start, n)));
    }
    let last = chars[end];
    proof {
        assert(last == s[end - start]);
        assert(input@.subrange(start as int, end + 1) =~= s.take(end - start + 1));
    }
    if end == start || !digits_only {
        return Err(ParseError::MalformedToken(fragment(input, start, end + 1)));
    }
    match Unit::from_letter(last) {
        None => Err(ParseError::UnrecognisedUnit(last)),
        Some(unit) => Ok(Scanned { count, unit, next: end + 1 }),
    }
}

/// The tokenizer of duration expressions.
pub struct InputParser;

impl InputParser {
    /// Cuts `input` into its tokens.
    ///
    /// Returns the tokens in the order in which they are written. Where a piece
    /// of `input` is no token, returns the fault of the first such piece from
    /// the left; the empty input is one malformed piece. Where all are tokens
    /// and a count is more than a `u64` holds, returns `NumericOverflow`.
    pub fn parse(input: &str) -> (r: Result<Vec<Token>, ParseError>)
        ensures
            match r {
                Ok(tokens) => tokenize(input@) == Ok::<Seq<Piece>, ParseFault>(pieces_of(tokens@)),
                Err(e) => tokenize(input@) == Err::<Seq<Piece>, ParseFault>(e@),
            },
    {
        let chars = characters(input);
        let n = chars.len();
        if n == 0 {
            proof {
                assert(input@.subrange(0, 0) =~= input@);
            }
            return Err(ParseError::MalformedToken(fragment(input, 0, 0)));
        }
        let mut tokens: Vec<Token> = Vec::new();
        let mut fits = true;
        let mut pos: usize = 0;
        let ghost mut pieces: Seq<Piece> = Seq::empty();
        proof {
            assert(input@.skip(0) =~= input@);
            lemma_prepend_nothing(lex(input@));
            assert(pieces_of(tokens@) =~= pieces);
        }
        while pos < n
            invariant
                pos <= n,
                n == chars.len(),
                chars@ == input@,
                lex(input@) == prepend(pieces, lex(input@.skip(pos as int))),
                fits == all_fit(pieces),
                fits ==> pieces_of(tokens@) == pieces,
            decreases n - pos,
        {
            let ghost rest = input@.skip(pos as int);
            let ghost before = pieces;
            let found = match scan_piece(input, &chars, pos) {
                Ok(found) => found,
                Err(e) => {
                    return Err(e);
                },
            };
            let ghost piece = leading_piece(rest)->Ok_0.0;
            proof {
                pieces = before.push(piece);
                assert(rest.skip(found.next - pos) =~= input@.skip(found.next as int));
                lemma_prepend_twice(before, seq![piece], lex(input@.skip(found.next as int)));
                assert(before + seq![piece] =~= pieces);
                if all_fit(pieces) {
                    assert forall|i: int| 0 <= i < before.len() implies (
                    #[trigger] before[i]).fits() by {
                        assert(pieces[i] == before[i]);
                    }
                    assert(pieces[before.len() as int] == piece);
                }
            }
            match found.count {
                Some(magnitude) => {
                    if fits {
                        let ghost tokens_before = tokens@;
                        tokens.push(Token { magnitude, unit: found.unit });
                        proof {
                            assert(pieces_of(tokens@) =~= pieces_of(tokens_before).push(piece));
                        }
                    }
                },
                None => {
                    fits = false;
                    proof {
                        assert(pieces[before.len() as int] == piece);
                    }
                },
            }
            pos = found.next;
        }
        proof {
            assert(pieces + Seq::<Piece>::empty() =~= pieces);
        }
        if fits {
            Ok(tokens)
        } else {
            Err(ParseError::NumericOverflow)
        }
    }
}

} // verus!
