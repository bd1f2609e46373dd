//! The grammar of expressions, as functions on token sequences.
//!
//! ```text
//! expression := term (('+' | '-') term)*
//! term       := factor (('*' | '/') factor)*
//! factor     := Number | '(' expression ')'
//! ```
//!
//! Each function takes the tokens that lie ahead, the first of them being the current
//! one, and gives what the parse yields together with the tokens that lie ahead
//! afterwards.

use crate::ast::{BinaryOpType, Node};
use crate::error::CompileError;
use crate::scanner::{KeywordType, Lexeme, Token};
use vstd::prelude::*;

verus! {

/// What a parse yields, and the tokens that lie ahead after it.
pub type Parsed = (Result<Node, CompileError>, Seq<Lexeme>);

/// The current token: the first of `ts`. Beyond the end of the sequence lies `Eof`.
pub open spec fn lookahead(ts: Seq<Lexeme>) -> Lexeme {
    if ts.len() > 0 {
        ts[0]
    } else {
        Ok(Token::Eof)
    }
}

/// Moves on to the next token. This fails where scanning that token fails, and the
/// current token then stays.
pub open spec fn step(ts: Seq<Lexeme>) -> Result<Seq<Lexeme>, CompileError> {
    if ts.len() > 0 {
        match lookahead(ts.drop_first()) {
            Ok(_) => Ok(ts.drop_first()),
            Err(e) => Err(e),
        }
    } else {
        Ok(ts)
    }
}

/// The additive operation that `lexeme` denotes, if any.
pub open spec fn additive(lexeme: Lexeme) -> Option<BinaryOpType> {
    match lexeme {
        Ok(Token::Keyword(KeywordType::Add)) => Some(BinaryOpType::Add),
        Ok(Token::Keyword(KeywordType::Sub)) => Some(BinaryOpType::Sub),
        _ => None,
    }
}

/// The multiplicative operation that `lexeme` denotes, if any.
pub open spec fn multiplicative(lexeme: Lexeme) -> Option<BinaryOpType> {
    match lexeme {
        Ok(Token::Keyword(KeywordType::Mul)) => Some(BinaryOpType::Mul),
        Ok(Token::Keyword(KeywordType::Div)) => Some(BinaryOpType::Div),
        _ => None,
    }
}

/// The tree of `op` applied to `lhs` and `rhs`.
pub open spec fn binop(op: BinaryOpType, lhs: Node, rhs: Node) -> Node {
    Node::BINOP { op, lhs: Box::new(lhs), rhs: Box::new(rhs) }
}

/// Parses a factor: a number, or an expression in brackets.
pub open spec fn parse_primary(ts: Seq<Lexeme>) -> Parsed
    decreases ts.len(), 0nat,
{
    match lookahead(ts) {
        Ok(Token::Number(n)) => match step(ts) {
            Ok(rest) => (Ok(Node::NUM(n)), rest),
            Err(e) => (Err(e), ts),
        },
        Ok(Token::Keyword(KeywordType::Lbracket)) => match step(ts) {
            Ok(inner) => {
                let (inside, after) = parse_expr(inner);
                match inside {
                    Ok(node) => match lookahead(after) {
                        Ok(Token::Keyword(KeywordType::Rbracket)) => match step(after) {
                            Ok(rest) => (Ok(node), rest),
                            Err(e) => (Err(e), after),
                        },
                        _ => (Err(CompileError::UnbalancedParentheses), after),
                    },
                    Err(e) => (Err(e), after),
                }
            },
            Err(e) => (Err(e), ts),
        },
        Ok(Token::Eof) => (Err(CompileError::UnexpectedEndOfInput), ts),
        Ok(_) => (Err(CompileError::UnexpectedToken), ts),
        Err(e) => (Err(e), ts),
    }
}

/// Goes on with a term whose factors so far make up `lhs`: takes `*` or `/` and one
/// more factor for as long as such an operator is the current token.
///
/// The test on the lengths holds always (see [`lemma_primary_shrinks`]); it is there to
/// show that the definition ends.
pub open spec fn parse_mul_rest(lhs: Node, ts: Seq<Lexeme>) -> Parsed
    decreases ts.len(), 1nat,
{
    match multiplicative(lookahead(ts)) {
        Some(op) => match step(ts) {
            Ok(operand) => {
                let (factor, after) = parse_primary(operand);
                match factor {
                    Ok(rhs) => if after.len() < ts.len() {
                        parse_mul_rest(binop(op, lhs, rhs), after)
                    } else {
                        (Ok(binop(op, lhs, rhs)), after)
                    },
                    Err(e) => (Err(e), after),
                }
            },
            Err(e) => (Err(e), ts),
        },
        None => (Ok(lhs), ts),
    }
}

/// Parses a term: factors joined by `*` and `/`, grouped from the left.
///
/// The test on the lengths holds always (see [`lemma_primary_shrinks`]); it is there to
/// show that the definition ends.
pub open spec fn parse_mul(ts: Seq<Lexeme>) -> Parsed
    decreases ts.len(), 2nat,
{
    let (factor, after) = parse_primary(ts);
    match factor {
        Ok(lhs) => if after.len() <= ts.len() {
            parse_mul_rest(lhs, after)
        } else {
            (Ok(lhs), after)
        },
        Err(e) => (Err(e), after),
    }
}

/// Goes on with an expression whose terms so far make up `lhs`: takes `+` or `-` and
/// one more term for as long as such an operator is the current token.
///
/// The test on the lengths holds always (see [`lemma_mul_shrinks`]); it is there to
/// show that the definition ends.
pub open spec fn parse_expr_rest(lhs: Node, ts: Seq<Lexeme>) -> Parsed
    decreases ts.len(), 3nat,
{
    match additive(lookahead(ts)) {
        Some(op) => match step(ts) {
            Ok(operand) => {
                let (term, after) = parse_mul(operand);
                match term {
                    Ok(rhs) => if after.len() < ts.len() {
                        parse_expr_rest(binop(op, lhs, rhs), after)
                    } else {
                        (Ok(binop(op, lhs, rhs)), after)
                    },
                    Err(e) => (Err(e), after),
                }
            },
            Err(e) => (Err(e), ts),
        },
        None => (Ok(lhs), ts),
    }
}

/// Parses an expression: terms joined by `+` and `-`, grouped from the left.
///
/// The test on the lengths holds always (see [`lemma_mul_shrinks`]); it is there to
/// show that the definition ends.
pub open spec fn parse_expr(ts: Seq<Lexeme>) -> Parsed
    decreases ts.len(), 4nat,
{
    let (term, after) = parse_mul(ts);
    match term {
        Ok(lhs) => if after.len() <= ts.len() {
            parse_expr_rest(lhs, after)
        } else {
            (Ok(lhs), after)
        },
        Err(e) => (Err(e), after),
    }
}

/// Parsing a factor does not lengthen the tokens that lie ahead, and shortens them
/// where it succeeds.
pub proof fn lemma_primary_shrinks(ts: Seq<Lexeme>)
    ensures
        parse_primary(ts).1.len() <= ts.len(),
        parse_primary(ts).0 is Ok ==> parse_primary(ts).1.len() < ts.len(),
    decreases ts.len(), 0nat,
{
    match lookahead(ts) {
        Ok(Token::Keyword(KeywordType::Lbracket)) => {
            if let Ok(inner) = step(ts) {
                lemma_expr_shrinks(inner);
            }
        },
        _ => {},
    }
}

/// Going on with a term does not lengthen the tokens that lie ahead.
pub proof fn lemma_mul_rest_shrinks(lhs: Node, ts: Seq<Lexeme>)
    ensures
        parse_mul_rest(lhs, ts).1.len() <= ts.len(),
    decreases ts.len(), 1nat,
{
    if let Some(op) = multiplicative(lookahead(ts)) {
        if let Ok(operand) = step(ts) {
            lemma_primary_shrinks(operand);
            let (factor, after) = parse_primary(operand);
            if let Ok(rhs) = factor {
                lemma_mul_rest_shrinks(binop(op, lhs, rhs), after);
            }
        }
    }
}

/// Parsing a term does not lengthen the tokens that lie ahead, and shortens them
/// where it succeeds.
pub proof fn lemma_mul_shrinks(ts: Seq<Lexeme>)
    ensures
        parse_mul(ts).1.len() <= ts.len(),
        parse_mul(ts).0 is Ok ==> parse_mul(ts).1.len() < ts.len(),
    decreases ts.len(), 2nat,
{
    lemma_primary_shrinks(ts);
    let (factor, after) = parse_primary(ts);
    if let Ok(lhs) = factor {
        lemma_mul_rest_shrinks(lhs, after);
    }
}

/// Going on with an expression does not lengthen the tokens that lie ahead.
pub proof fn lemma_expr_rest_shrinks(lhs: Node, ts: Seq<Lexeme>)
    ensures
        parse_expr_rest(lhs, ts).1.len() <= ts.len(),
    decreases ts.len(), 3nat,
{
    if let Some(op) = additive(lookahead(ts)) {
        if let Ok(operand) = step(ts) {
            lemma_mul_shrinks(operand);
            let (term, after) = parse_mul(operand);
            if let Ok(rhs) = term {
                lemma_expr_rest_shrinks(binop(op, lhs, rhs), after);
            }
        }
    }
}

/// Parsing an expression does not lengthen the tokens that lie ahead, and shortens
/// them where it succeeds.
pub proof fn lemma_expr_shrinks(ts: Seq<Lexeme>)
    ensures
        parse_expr(ts).1.len() <= ts.len(),
        parse_expr(ts).0 is Ok ==> parse_expr(ts).1.len() < ts.len(),
    decreases ts.len(), 4nat,
{
    lemma_mul_shrinks(ts);
    let (term, after) = parse_mul(ts);
    if let Ok(lhs) = term {
        lemma_expr_rest_shrinks(lhs, after);
    }
}

} // verus!
