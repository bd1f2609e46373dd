//! The sentences of the grammar, and the proof that the parser reads each of them as
//! the tree that it spells.
//!
//! A [`Syntax`] is an expression as it is written: unlike a tree it keeps the brackets.
//! It says of every operator what its operands are, so it is the grouping that the
//! grammar gives to a sequence of tokens:
//!
//! - the right operand of `+` or `-` is a term, so `*` and `/` bind tighter;
//! - the left operand of an operator is whatever stands to its left on the same level,
//!   so operators of one level group from the left;
//! - an expression in brackets is a factor, so it can stand wherever a number can.

use crate::ast::{BinaryOpType, Node};
use crate::error::CompileError;
use crate::grammar::{
    additive, binop, lemma_mul_shrinks, lemma_primary_shrinks, lookahead, multiplicative,
    parse_expr, parse_expr_rest, parse_mul, parse_mul_rest, parse_primary,
};
use crate::scanner::{KeywordType, Lexeme, Token};
use vstd::prelude::*;

verus! {

/// An expression as it is written.
pub enum Syntax {
    /// A number.
    Number(i64),
    /// An expression in brackets.
    Bracket(Box<Syntax>),
    /// Two expressions with an operator between them.
    Binary { op: BinaryOpType, lhs: Box<Syntax>, rhs: Box<Syntax> },
}

/// Whether `op` is `+` or `-`.
pub open spec fn is_additive(op: BinaryOpType) -> bool {
    op == BinaryOpType::Add || op == BinaryOpType::Sub
}

/// The keyword that is written for `op`.
pub open spec fn keyword_of(op: BinaryOpType) -> KeywordType {
    match op {
        BinaryOpType::Add => KeywordType::Add,
        BinaryOpType::Sub => KeywordType::Sub,
        BinaryOpType::Mul => KeywordType::Mul,
        BinaryOpType::Div => KeywordType::Div,
    }
}

/// The token `keyword`, as the scanner yields it.
pub open spec fn symbol(keyword: KeywordType) -> Lexeme {
    Ok(Token::Keyword(keyword))
}

impl Syntax {
    /// Whether this is a factor: a number, or an expression in brackets.
    pub open spec fn is_factor(self) -> bool
        decreases self, 0nat,
    {
        match self {
            Syntax::Number(_) => true,
            Syntax::Bracket(inner) => inner.is_expression(),
            Syntax::Binary { .. } => false,
        }
    }

    /// Whether this is a term: a factor, or a term, `*` or `/`, and a factor.
    pub open spec fn is_term(self) -> bool
        decreases self, 1nat,
    {
        match self {
            Syntax::Binary { op, lhs, rhs } => !is_additive(op) && lhs.is_term() && rhs.is_factor(),
            _ => self.is_factor(),
        }
    }

    /// Whether this is an expression: a term, or an expression, `+` or `-`, and a
    /// term.
    pub open spec fn is_expression(self) -> bool
        decreases self, 2nat,
    {
        match self {
            Syntax::Binary { op, lhs, rhs } => if is_additive(op) {
                lhs.is_expression() && rhs.is_term()
            } else {
                self.is_term()
            },
            _ => self.is_term(),
        }
    }

    /// The tokens that spell this, in order.
    pub open spec fn lexemes(self) -> Seq<Lexeme>
        decreases self,
    {
        match self {
            Syntax::Number(n) => seq![Ok(Token::Number(n))],
            Syntax::Bracket(inner) => seq![symbol(KeywordType::Lbracket)] + inner.lexemes() + seq![
                symbol(KeywordType::Rbracket),
            ],
            Syntax::Binary { op, lhs, rhs } => lhs.lexemes() + seq![symbol(keyword_of(op))]
                + rhs.lexemes(),
        }
    }

    /// The tree of this: what is left when the brackets are dropped.
    pub open spec fn tree(self) -> Node
        decreases self,
    {
        match self {
            Syntax::Number(n) => Node::NUM(n),
            Syntax::Bracket(inner) => inner.tree(),
            Syntax::Binary { op, lhs, rhs } => binop(op, lhs.tree(), rhs.tree()),
        }
    }
}

/// Whether a parse can end before `rest`: the token there was scanned, and is not
/// an operator that would make the parse go on.
pub open spec fn ends_expression(rest: Seq<Lexeme>) -> bool {
    lookahead(rest) is Ok && additive(lookahead(rest)) is None && multiplicative(lookahead(rest))
        is None
}

/// A factor is parsed as its tree, whatever follows it: a number as itself, and
/// an expression in brackets as that expression. So brackets override the grouping
/// that the operators would have, to any depth.
pub proof fn theorem_factor(written: Syntax, rest: Seq<Lexeme>)
    requires
        written.is_factor(),
        lookahead(rest) is Ok,
    ensures
        parse_primary(written.lexemes() + rest) == (
            Ok::<Node, CompileError>(written.tree()),
            rest,
        ),
    decreases written, 0nat,
{
    let ts = written.lexemes() + rest;
    match written {
        Syntax::Number(n) => {
        },
        Syntax::Bracket(inner) => {
            let close = seq![symbol(KeywordType::Rbracket)] + rest;
            let inside = inner.lexemes() + close;
            assert(ts.drop_first() =~= inside);
            theorem_expression_then(*inner, close);
        },
        Syntax::Binary { .. } => {},
    }
}

/// A term that is followed by more tokens is parsed as its tree, and the parse goes
/// on from there with what follows. So `*` and `/` group from the left.
pub proof fn theorem_term_then(written: Syntax, rest: Seq<Lexeme>)
    requires
        written.is_term(),
        lookahead(rest) is Ok,
    ensures
        parse_mul(written.lexemes() + rest) == parse_mul_rest(written.tree(), rest),
    decreases written, 1nat,
{
    let ts = written.lexemes() + rest;
    match written {
        Syntax::Binary { op, lhs, rhs } => {
            let operand = rhs.lexemes() + rest;
            let more = seq![symbol(keyword_of(op))] + operand;
            assert(ts =~= lhs.lexemes() + more);
            theorem_term_then(*lhs, more);
            assert(more.drop_first() =~= operand);
            theorem_factor(*rhs, rest);
        },
        _ => {
            theorem_factor(written, rest);
        },
    }
}

/// An expression that is followed by more tokens, the first of them neither `*` nor
/// `/`, is parsed as its tree, and the parse goes on from there with what follows. So
/// `+` and `-` group from the left, and each of their operands is a whole term.
pub proof fn theorem_expression_then(written: Syntax, rest: Seq<Lexeme>)
    requires
        written.is_expression(),
        lookahead(rest) is Ok,
        multiplicative(lookahead(rest)) is None,
    ensures
        parse_expr(written.lexemes() + rest) == parse_expr_rest(written.tree(), rest),
    decreases written, 2nat,
{
    let ts = written.lexemes() + rest;
    match written {
        Syntax::Binary { op, lhs, rhs } => {
            if is_additive(op) {
                let operand = rhs.lexemes() + rest;
                let more = seq![symbol(keyword_of(op))] + operand;
                assert(ts =~= lhs.lexemes() + more);
                theorem_expression_then(*lhs, more);
                assert(more.drop_first() =~= operand);
                theorem_term_then(*rhs, rest);
            } else {
                theorem_term_then(written, rest);
            }
        },
        _ => {
            theorem_term_then(written, rest);
        },
    }
}

/// The parser reads every expression as the tree that it spells: where the tokens
/// of an expression are followed by a token that is no operator (the end of the
/// input, say), parsing yields the tree of the expression and stops at that token.
pub proof fn theorem_expression(written: Syntax, rest: Seq<Lexeme>)
    requires
        written.is_expression(),
        ends_expression(rest),
    ensures
        parse_expr(written.lexemes() + rest) == (
            Ok::<Node, CompileError>(written.tree()),
            rest,
        ),
{
    theorem_expression_then(written, rest);
}

/// Whether `written` is what a parse has read off `ts`: it spells the tokens of `ts`
/// up to those that lie ahead after the parse, and the tree that was parsed is its
/// tree.
pub open spec fn reads(written: Syntax, ts: Seq<Lexeme>, parsed: (
    Result<Node, CompileError>,
    Seq<Lexeme>,
)) -> bool {
    parsed.0 == Ok::<Node, CompileError>(written.tree()) && ts == written.lexemes() + parsed.1
}

/// Where a factor was parsed, a factor was written: the tokens that the parse has
/// used spell a factor, whose tree the parse has yielded.
pub proof fn lemma_factor_was_written(ts: Seq<Lexeme>) -> (written: Syntax)
    requires
        parse_primary(ts).0 is Ok,
    ensures
        written.is_factor(),
        reads(written, ts, parse_primary(ts)),
    decreases ts.len(), 0nat,
{
    match lookahead(ts) {
        Ok(Token::Number(n)) => {
            let written = Syntax::Number(n);
            assert(ts =~= written.lexemes() + ts.drop_first());
            written
        },
        Ok(Token::Keyword(KeywordType::Lbracket)) => {
            let inner = ts.drop_first();
            let (_, after) = parse_expr(inner);
            let inside = lemma_expression_was_written(inner);
            let written = Syntax::Bracket(Box::new(inside));
            assert(ts =~= seq![symbol(KeywordType::Lbracket)] + inner);
            assert(ts =~= written.lexemes() + after.drop_first());
            written
        },
        _ => Syntax::Number(0),
    }
}

/// Where going on with a term has succeeded, a term was written: what was written
/// so far and the tokens that the parse has used since spell a term.
pub proof fn lemma_term_went_on(so_far: Syntax, ts: Seq<Lexeme>) -> (written: Syntax)
    requires
        so_far.is_term(),
        parse_mul_rest(so_far.tree(), ts).0 is Ok,
    ensures
        written.is_term(),
        reads(written, so_far.lexemes() + ts, parse_mul_rest(so_far.tree(), ts)),
    decreases ts.len(), 1nat,
{
    match multiplicative(lookahead(ts)) {
        Some(op) => {
            let operand = ts.drop_first();
            let (_, after) = parse_primary(operand);
            let factor = lemma_factor_was_written(operand);
            let longer = Syntax::Binary { op, lhs: Box::new(so_far), rhs: Box::new(factor) };
            let operator = seq![symbol(keyword_of(op))];
            assert(ts =~= operator + operand);
            assert(so_far.lexemes() + ts =~= longer.lexemes() + after);
            lemma_term_went_on(longer, after)
        },
        None => so_far,
    }
}

/// Where a term was parsed, a term was written.
pub proof fn lemma_term_was_written(ts: Seq<Lexeme>) -> (written: Syntax)
    requires
        parse_mul(ts).0 is Ok,
    ensures
        written.is_term(),
        reads(written, ts, parse_mul(ts)),
    decreases ts.len(), 2nat,
{
    lemma_primary_shrinks(ts);
    let factor = lemma_factor_was_written(ts);
    assert(factor.is_term());
    lemma_term_went_on(factor, parse_primary(ts).1)
}

/// Where going on with an expression has succeeded, an expression was written: what
/// was written so far and the tokens that the parse has used since spell an
/// expression.
pub proof fn lemma_expression_went_on(so_far: Syntax, ts: Seq<Lexeme>) -> (written: Syntax)
    requires
        so_far.is_expression(),
        parse_expr_rest(so_far.tree(), ts).0 is Ok,
    ensures
        written.is_expression(),
        reads(written, so_far.lexemes() + ts, parse_expr_rest(so_far.tree(), ts)),
    decreases ts.len(), 3nat,
{
    match additive(lookahead(ts)) {
        Some(op) => {
            let operand = ts.drop_first();
            let (_, after) = parse_mul(operand);
            let term = lemma_term_was_written(operand);
            let longer = Syntax::Binary { op, lhs: Box::new(so_far), rhs: Box::new(term) };
            let operator = seq![symbol(keyword_of(op))];
            assert(ts =~= operator + operand);
            assert(so_far.lexemes() + ts =~= longer.lexemes() + after);
            lemma_expression_went_on(longer, after)
        },
        None => so_far,
    }
}

/// Where an expression was parsed, an expression was written.
pub proof fn lemma_expression_was_written(ts: Seq<Lexeme>) -> (written: Syntax)
    requires
        parse_expr(ts).0 is Ok,
    ensures
        written.is_expression(),
        reads(written, ts, parse_expr(ts)),
    decreases ts.len(), 4nat,
{
    lemma_mul_shrinks(ts);
    let term = lemma_term_was_written(ts);
    assert(term.is_expression());
    lemma_expression_went_on(term, parse_mul(ts).1)
}

/// The parser accepts nothing but expressions: whenever it yields a tree, the tokens
/// that it has used spell an expression of the grammar, and the tree is the tree of
/// that expression.
pub proof fn theorem_parsed_was_written(ts: Seq<Lexeme>)
    requires
        parse_expr(ts).0 is Ok,
    ensures
        exists|written: Syntax| #[trigger]
            written.is_expression() && reads(written, ts, parse_expr(ts)),
{
    let written = lemma_expression_was_written(ts);
    assert(written.is_expression() && reads(written, ts, parse_expr(ts)));
}

/// The expression without brackets that begins with the number `first` and goes on
/// with each operator and number of `more`, grouped from the left.
pub open spec fn chain(first: i64, more: Seq<(BinaryOpType, i64)>) -> Syntax
    decreases more.len(),
{
    if more.len() == 0 {
        Syntax::Number(first)
    } else {
        Syntax::Binary {
            op: more.last().0,
            lhs: Box::new(chain(first, more.drop_last())),
            rhs: Box::new(Syntax::Number(more.last().1)),
        }
    }
}

/// The tokens of the number `first` followed by each operator and number of `more`.
pub open spec fn spelled(first: i64, more: Seq<(BinaryOpType, i64)>) -> Seq<Lexeme>
    decreases more.len(),
{
    if more.len() == 0 {
        seq![Ok(Token::Number(first))]
    } else {
        spelled(first, more.drop_last()) + seq![
            symbol(keyword_of(more.last().0)),
            Ok(Token::Number(more.last().1)),
        ]
    }
}

/// Whether the operators of `more` are all `+` or `-`.
pub open spec fn all_additive(more: Seq<(BinaryOpType, i64)>) -> bool {
    forall|i: int| 0 <= i < more.len() ==> is_additive(#[trigger] more[i].0)
}

/// Whether the operators of `more` are all `*` or `/`.
pub open spec fn all_multiplicative(more: Seq<(BinaryOpType, i64)>) -> bool {
    forall|i: int| 0 <= i < more.len() ==> !is_additive(#[trigger] more[i].0)
}

/// A number is a factor, a term and an expression, written as one token.
pub proof fn lemma_number(n: i64)
    ensures
        Syntax::Number(n).is_factor(),
        Syntax::Number(n).is_term(),
        Syntax::Number(n).is_expression(),
        Syntax::Number(n).lexemes() == seq![Ok::<Token, CompileError>(Token::Number(n))],
        Syntax::Number(n).tree() == Node::NUM(n),
{
    let number = Syntax::Number(n);
    assert(number.is_factor());
    assert(number.is_term());
    assert(number.is_expression());
}

/// Numbers joined by operators of one level are an expression, and written as
/// those numbers and operators in order.
pub proof fn lemma_chain(first: i64, more: Seq<(BinaryOpType, i64)>)
    ensures
        chain(first, more).lexemes() == spelled(first, more),
        all_multiplicative(more) ==> chain(first, more).is_term(),
        all_additive(more) || all_multiplicative(more) ==> chain(first, more).is_expression(),
    decreases more.len(),
{
    lemma_number(first);
    if more.len() > 0 {
        let before = more.drop_last();
        lemma_chain(first, before);
        lemma_number(more.last().1);
        assert(chain(first, more).lexemes() =~= spelled(first, more));
        assert(all_additive(more) ==> all_additive(before)) by {
            if all_additive(more) {
                assert forall|i: int| 0 <= i < before.len() implies is_additive(
                    #[trigger] before[i].0,
                ) by {
                    assert(before[i] == more[i]);
                }
            }
        }
        let whole = chain(first, more);
        if all_multiplicative(more) {
            assert(whole.is_term());
        } else if all_additive(more) {
        }
    }
}

/// Numbers joined by operators of one level are grouped from the left: the parser
/// reads them as the tree whose left operand holds all but the last number.
pub proof fn theorem_chain_groups_from_the_left(
    first: i64,
    more: Seq<(BinaryOpType, i64)>,
    rest: Seq<Lexeme>,
)
    requires
        all_additive(more) || all_multiplicative(more),
        ends_expression(rest),
    ensures
        parse_expr(spelled(first, more) + rest) == (
            Ok::<Node, CompileError>(chain(first, more).tree()),
            rest,
        ),
        more.len() > 0 ==> chain(first, more).tree() == binop(
            more.last().0,
            chain(first, more.drop_last()).tree(),
            Node::NUM(more.last().1),
        ),
{
    lemma_chain(first, more);
    theorem_expression(chain(first, more), rest);
    if more.len() > 0 {
        lemma_number(more.last().1);
    }
}

} // verus!
