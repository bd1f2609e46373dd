//! Expressions as text, and the proof that the scanner reads the text back: the text
//! of a number, as [`crate::decimal`] writes it, is scanned as that number, and the
//! text of an expression as the tokens that spell it.

use crate::ast::BinaryOpType;
use crate::decimal::decimal_digits;
use crate::error::CompileError;
use crate::scanner::{
    decimal_value, is_digit, leading_numeral, lemma_digit_run_is, numerals_fit, scan,
    skip_whitespace, tokens, KeywordType, Token,
};
use crate::syntax::{chain, keyword_of, symbol, Syntax};
use vstd::prelude::*;
use vstd::utf8::{encode_utf8, is_ascii_chars, is_ascii_chars_encode_utf8};

verus! {

/// The bytes of the text of `n`: its digits in base ten.
pub open spec fn numeral(n: nat) -> Seq<u8> {
    encode_utf8(decimal_digits(n))
}

/// The byte that is written for `op`.
pub open spec fn operator_byte(op: BinaryOpType) -> u8 {
    match op {
        BinaryOpType::Add => '+' as u8,
        BinaryOpType::Sub => '-' as u8,
        BinaryOpType::Mul => '*' as u8,
        BinaryOpType::Div => '/' as u8,
    }
}

/// Whether `written` can be written as text: none of its numbers is negative.
pub open spec fn writable(written: Syntax) -> bool
    decreases written,
{
    match written {
        Syntax::Number(n) => n >= 0,
        Syntax::Bracket(inner) => writable(*inner),
        Syntax::Binary { op, lhs, rhs } => writable(*lhs) && writable(*rhs),
    }
}

/// The text of `written`, with nothing between its tokens.
pub open spec fn text(written: Syntax) -> Seq<u8>
    decreases written,
{
    match written {
        Syntax::Number(n) => numeral(n as nat),
        Syntax::Bracket(inner) => seq!['(' as u8] + text(*inner) + seq![')' as u8],
        Syntax::Binary { op, lhs, rhs } => text(*lhs) + seq![operator_byte(op)] + text(*rhs),
    }
}

/// Whether scanning `rest` does not begin in the middle of a numeral: `rest` is
/// empty or begins with a byte that is no digit.
pub open spec fn no_digit_ahead(rest: Seq<u8>) -> bool {
    rest.len() > 0 ==> !is_digit(rest[0])
}

/// The text of a number is made of digits, at least one, and denotes the number.
pub proof fn lemma_numeral(n: nat)
    ensures
        numeral(n).len() > 0,
        forall|i: int| 0 <= i < numeral(n).len() ==> is_digit(#[trigger] numeral(n)[i]),
        decimal_value(numeral(n)) == n,
    decreases n,
{
    let text = decimal_digits(n);
    lemma_decimal_digits(n);
    is_ascii_chars_encode_utf8(text);
    let bytes = numeral(n);
    if n >= 10 {
        let front = decimal_digits(n / 10);
        lemma_decimal_digits(n / 10);
        is_ascii_chars_encode_utf8(front);
        lemma_numeral(n / 10);
        assert(bytes.drop_last() =~= numeral(n / 10)) by {
            assert forall|i: int| 0 <= i < front.len() implies bytes[i] == numeral(n / 10)[i] by {
                assert(text[i] as u8 == bytes[i]);
                assert(front[i] as u8 == numeral(n / 10)[i]);
            }
        }
    } else {
        assert(decimal_value(bytes.drop_last()) == 0);
    }
}

/// The digits of a number are ASCII digits, at least one.
pub proof fn lemma_decimal_digits(n: nat)
    ensures
        decimal_digits(n).len() > 0,
        is_ascii_chars(decimal_digits(n)),
        forall|i: int|
            0 <= i < decimal_digits(n).len() ==> is_digit(#[trigger] decimal_digits(n)[i] as u8),
    decreases n,
{
    if n >= 10 {
        lemma_decimal_digits(n / 10);
    }
}

/// The text of a number that an `i64` holds is scanned as that number, and the scan
/// stops behind it.
pub proof fn theorem_numeral_is_scanned(n: i64, rest: Seq<u8>)
    requires
        n >= 0,
        no_digit_ahead(rest),
    ensures
        scan(numeral(n as nat) + rest) == (Ok::<Token, CompileError>(Token::Number(n)), rest),
        leading_numeral(skip_whitespace(numeral(n as nat) + rest)) == numeral(n as nat),
{
    let text = numeral(n as nat);
    let s = text + rest;
    lemma_numeral(n as nat);
    lemma_digit_run_is(s, text.len() as int);
    assert(s.take(text.len() as int) =~= text);
}

/// An operator is scanned as its keyword, and the scan stops behind it.
pub proof fn lemma_operator_is_scanned(op: BinaryOpType, rest: Seq<u8>)
    ensures
        scan(seq![operator_byte(op)] + rest) == (symbol(keyword_of(op)), rest),
        leading_numeral(skip_whitespace(seq![operator_byte(op)] + rest)).len() == 0,
{
}

/// A bracket is scanned as its keyword, and the scan stops behind it.
pub proof fn lemma_bracket_is_scanned(rest: Seq<u8>)
    ensures
        scan(seq!['(' as u8] + rest) == (symbol(KeywordType::Lbracket), rest),
        scan(seq![')' as u8] + rest) == (symbol(KeywordType::Rbracket), rest),
        leading_numeral(skip_whitespace(seq!['(' as u8] + rest)).len() == 0,
        leading_numeral(skip_whitespace(seq![')' as u8] + rest)).len() == 0,
{
}

/// The text of what is written is scanned as the tokens that spell it, and the
/// scan goes on with what follows the text.
pub proof fn lemma_text_is_scanned(written: Syntax, rest: Seq<u8>)
    requires
        writable(written),
        no_digit_ahead(rest),
    ensures
        tokens(text(written) + rest) == written.lexemes() + tokens(rest),
        numerals_fit(text(written) + rest) == numerals_fit(rest),
    decreases written,
{
    match written {
        Syntax::Number(n) => {
            theorem_numeral_is_scanned(n, rest);
            lemma_numeral(n as nat);
        },
        Syntax::Bracket(inner) => {
            let close = seq![')' as u8] + rest;
            let inside = text(*inner) + close;
            let whole = seq!['(' as u8] + inside;
            assert(text(written) + rest =~= whole);
            lemma_bracket_is_scanned(inside);
            lemma_text_is_scanned(*inner, close);
            lemma_bracket_is_scanned(rest);
        },
        Syntax::Binary { op, lhs, rhs } => {
            let operand = text(*rhs) + rest;
            let tail = seq![operator_byte(op)] + operand;
            assert(text(written) + rest =~= text(*lhs) + tail);
            lemma_text_is_scanned(*lhs, tail);
            lemma_operator_is_scanned(op, operand);
            lemma_text_is_scanned(*rhs, rest);
        },
    }
}

/// Whether the numbers `first` and those of `more` can be written: none is negative.
pub open spec fn non_negative(first: i64, more: Seq<(BinaryOpType, i64)>) -> bool {
    first >= 0 && forall|i: int| 0 <= i < more.len() ==> (#[trigger] more[i]).1 >= 0
}

/// Numbers that are not negative, joined by operators, can be written as text.
pub proof fn lemma_chain_is_writable(first: i64, more: Seq<(BinaryOpType, i64)>)
    requires
        non_negative(first, more),
    ensures
        writable(chain(first, more)),
    decreases more.len(),
{
    if more.len() > 0 {
        let before = more.drop_last();
        lemma_chain_is_writable(first, before);
        assert(writable(Syntax::Number(more.last().1)));
    }
}

/// The text of what is written is scanned as the tokens that spell it, followed by
/// the end of the input; and all its numerals have values that an `i64` holds.
pub proof fn theorem_text_is_scanned(written: Syntax)
    requires
        writable(written),
    ensures
        tokens(text(written)) == written.lexemes() + seq![Ok::<Token, CompileError>(Token::Eof)],
        numerals_fit(text(written)),
{
    lemma_text_is_scanned(written, Seq::empty());
}

} // verus!
