//! The shape of the expressions that the grammar accepts.
//!
//! The tokenizer cuts and checks piece by piece. Read as a whole, the
//! expressions without a fault of the grammar are the words of
//! `([0-9]+[smh])+`: they hold only digits and unit letters, start with a
//! digit, end in a unit letter, and have a digit before each unit letter.

use vstd::prelude::*;
use crate::error::ParseFault;
use crate::grammar::all_digits;
use crate::grammar::decimal_value;
use crate::grammar::is_digit;
use crate::grammar::is_letter;
use crate::grammar::leading_piece;
use crate::grammar::lemma_run_len;
use crate::grammar::lemma_run_len_unique;
use crate::grammar::lex;
use crate::grammar::read;
use crate::grammar::run_len;
use crate::units::Piece;
use crate::units::Unit;

verus! {

/// Whether `c` is one of the letters that name a unit.
pub open spec fn is_unit_letter(c: char) -> bool {
    Unit::spec_from_letter(c) is Some
}

/// Whether `s` is a word of `([0-9]+[smh])+`.
pub open spec fn is_expression(s: Seq<char>) -> bool {
    &&& s.len() > 0
    &&& forall|i: int| 0 <= i < s.len() ==> is_digit(#[trigger] s[i]) || is_unit_letter(s[i])
    &&& is_digit(s[0])
    &&& is_unit_letter(s.last())
    &&& forall|i: int| 0 < i < s.len() && is_unit_letter(#[trigger] s[i]) ==> is_digit(s[i - 1])
}

/// A count followed by a unit letter is one token: that count of that unit.
pub proof fn lemma_single_token(run: Seq<char>, letter: char)
    requires
        run.len() > 0,
        all_digits(run),
        is_unit_letter(letter),
    ensures
        read(run.push(letter)) == Ok::<Seq<Piece>, ParseFault>(
            seq![Piece { count: decimal_value(run), unit: Unit::spec_from_letter(letter)->Some_0 }],
        ),
{
    let s = run.push(letter);
    let k = run.len() as int;
    let piece = Piece { count: decimal_value(run), unit: Unit::spec_from_letter(letter)->Some_0 };
    assert forall|i: int| 0 <= i < k implies !is_letter(#[trigger] s[i]) by {
        assert(s[i] == run[i]);
    }
    lemma_run_len_unique(s, k);
    assert(s.take(k) =~= run);
    assert(leading_piece(s) == Ok::<(Piece, nat), ParseFault>((piece, (k + 1) as nat)));
    assert(lex(s.skip(k + 1)) == Ok::<Seq<Piece>, ParseFault>(Seq::empty()));
    assert(seq![piece] + Seq::<Piece>::empty() =~= seq![piece]);
}

/// The first piece of a word of the grammar is a token, and what is left behind
/// it is empty or a word of the grammar again.
proof fn lemma_expression_step(s: Seq<char>)
    requires
        is_expression(s),
    ensures
        leading_piece(s) is Ok,
        run_len(s) + 1 == s.len() || is_expression(s.skip(run_len(s) as int + 1)),
{
    let k = run_len(s) as int;
    lemma_run_len(s);
    assert(is_letter(s.last()));
    assert(!is_letter(s[0]));
    assert forall|i: int| 0 <= i < k implies is_digit(#[trigger] s.take(k)[i]) by {
        assert(!is_letter(s[i]));
    }
    if k + 1 < s.len() {
        let rest = s.skip(k + 1);
        assert forall|i: int| 0 <= i < rest.len() implies is_digit(#[trigger] rest[i])
            || is_unit_letter(rest[i]) by {
            assert(rest[i] == s[i + k + 1]);
        }
        assert(rest[0] == s[k + 1]);
        if is_unit_letter(s[k + 1]) {
            assert(is_digit(s[k + 1 - 1]));
        }
        assert(rest.last() == s.last());
        assert forall|i: int| 0 < i < rest.len() && is_unit_letter(
            #[trigger] rest[i],
        ) implies is_digit(rest[i - 1]) by {
            assert(rest[i] == s[i + k + 1]);
            assert(rest[i - 1] == s[i + k + 1 - 1]);
        }
    }
}

/// Every piece of a word of the grammar is a token.
pub proof fn lemma_expression_lexes(s: Seq<char>)
    requires
        is_expression(s),
    ensures
        lex(s) is Ok,
    decreases s.len(),
{
    let k = run_len(s) as int;
    lemma_expression_step(s);
    if k + 1 < s.len() {
        lemma_expression_lexes(s.skip(k + 1));
    } else {
        assert(lex(s.skip(k + 1)) is Ok);
    }
}

/// What the tokenizer cuts into tokens throughout is empty or a word of the
/// grammar.
pub proof fn lemma_lexed_is_expression(s: Seq<char>)
    requires
        lex(s) is Ok,
    ensures
        s.len() == 0 || is_expression(s),
    decreases s.len(),
{
    if s.len() > 0 {
        let k = run_len(s) as int;
        let rest = s.skip(k + 1);
        lemma_run_len(s);
        lemma_lexed_is_expression(rest);
        assert forall|i: int| 0 <= i < k implies is_digit(#[trigger] s[i]) by {
            assert(s.take(k)[i] == s[i]);
        }
        assert forall|i: int| 0 <= i < s.len() implies is_digit(#[trigger] s[i]) || is_unit_letter(
            s[i],
        ) by {
            if i > k {
                assert(rest[i - k - 1] == s[i]);
            }
        }
        if rest.len() > 0 {
            assert(rest.last() == s.last());
            assert(rest[0] == s[k + 1]);
        }
        assert forall|i: int| 0 < i < s.len() && is_unit_letter(#[trigger] s[i]) implies is_digit(
            s[i - 1],
        ) by {
            if i > k + 1 {
                assert(rest[i - k - 1] == s[i]);
                assert(rest[i - k - 1 - 1] == s[i - 1]);
            }
        }
    }
}

/// The grammar, read as a whole: the expressions without a fault of the grammar
/// are exactly the words of `([0-9]+[smh])+`. So an expression with white
/// space, or with any other character that is neither a digit nor a unit
/// letter, has such a fault.
pub proof fn lemma_reads_the_grammar(s: Seq<char>)
    ensures
        read(s) is Ok <==> is_expression(s),
        forall|i: int|
            0 <= i < s.len() && !is_digit(#[trigger] s[i]) && !is_unit_letter(s[i]) ==> read(
                s,
            ) is Err,
{
    if read(s) is Ok {
        lemma_lexed_is_expression(s);
    }
    if is_expression(s) {
        lemma_expression_lexes(s);
    }
}

} // verus!
