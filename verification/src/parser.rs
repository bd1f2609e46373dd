//! The parser: from the tokens of a scanner to a tree, by recursive descent.
//!
//! The parser holds one token of lookahead and pulls the next from the scanner when it
//! has used that one. What it does is stated over the tokens that lie ahead of it, by
//! the functions of [`crate::grammar`].

use crate::ast::{BinaryOpType, Node};
use crate::error::CompileError;
use crate::grammar::{
    lemma_mul_shrinks, lemma_primary_shrinks, lookahead, parse_expr, parse_expr_rest, parse_mul,
    parse_mul_rest, parse_primary, step,
};
use crate::scanner::{
    lemma_scan_stays, lemma_tokens_unfold, numerals_fit, scan, tokens,
    KeywordType, Lexeme, Scanner, TinyCScanner, Token,
};
use vstd::prelude::*;

verus! {

/// A parser over the tokens of a [`TinyCScanner`].
pub struct TinyCParser {
    scanner: TinyCScanner,
    current_token: Token,
}

impl TinyCParser {
    /// Whether the parser can go on: every numeral that the scanner has yet to read
    /// has a value that an `i64` holds.
    pub closed spec fn wf(&self) -> bool {
        numerals_fit(self.scanner.remaining())
    }

    /// The tokens that lie ahead: the current one, then those that the scanner has
    /// yet to give. After `Eof` nothing follows.
    pub closed spec fn upcoming(&self) -> Seq<Lexeme> {
        if self.current_token is Eof {
            seq![Ok(Token::Eof)]
        } else {
            seq![Ok(self.current_token)] + tokens(self.scanner.remaining())
        }
    }

    /// A parser at the first token of `scanner`. Where scanning that token fails, so
    /// does this.
    pub fn new(scanner: TinyCScanner) -> (parser: Result<TinyCParser, CompileError>)
        requires
            numerals_fit(scanner.remaining()),
        ensures
            match parser {
                Ok(parser) => parser.wf() && parser.upcoming() == tokens(scanner.remaining()),
                Err(e) => tokens(scanner.remaining()) == seq![Err::<Token, CompileError>(e)],
            },
    {
        let ghost input = scanner.remaining();
        let mut scanner = scanner;
        proof {
            lemma_tokens_unfold(input);
        }
        match scanner.next_token() {
            Ok(current_token) => Ok(TinyCParser { scanner, current_token }),
            Err(e) => Err(e),
        }
    }

    /// The current token.
    pub fn get_current_token(&self) -> (token: &Token)
        ensures
            lookahead(self.upcoming()) == Ok::<Token, CompileError>(*token),
    {
        &self.current_token
    }

    /// Moves on to the next token of the scanner.
    fn next(&mut self) -> (moved: Result<(), CompileError>)
        requires
            old(self).wf(),
            !(old(self).current_token is Eof),
        ensures
            final(self).wf(),
            match step(old(self).upcoming()) {
                Ok(rest) => moved is Ok && final(self).upcoming() == rest,
                Err(e) => moved == Err::<(), CompileError>(e) && final(self).upcoming() == old(
                    self,
                ).upcoming(),
            },
            final(self).upcoming().len() <= old(self).upcoming().len(),
    {
        let ghost input = self.scanner.remaining();
        proof {
            lemma_tokens_unfold(input);
            if !(scan(input).0 is Ok) {
                lemma_scan_stays(input);
            }
        }
        match self.scanner.next_token() {
            Ok(token) => {
                self.current_token = token;
                Ok(())
            },
            Err(e) => Err(e),
        }
    }

    /// Parses an expression: `expr = mul ('+' mul | '-' mul)*`.
    pub fn expr(&mut self) -> (result: Result<Node, CompileError>)
        requires
            old(self).wf(),
        ensures
            final(self).wf(),
            (result, final(self).upcoming()) == parse_expr(old(self).upcoming()),
        decreases old(self).upcoming().len(), 4nat,
    {
        let mut node = match self.mul() {
            Ok(node) => node,
            Err(e) => return Err(e),
        };
        proof {
            lemma_mul_shrinks(old(self).upcoming());
        }
        loop
            invariant
                self.wf(),
                parse_expr_rest(node, self.upcoming()) == parse_expr(old(self).upcoming()),
                self.upcoming().len() <= old(self).upcoming().len(),
            decreases self.upcoming().len(),
        {
            let op = match self.current_token {
                Token::Keyword(KeywordType::Add) => BinaryOpType::Add,
                Token::Keyword(KeywordType::Sub) => BinaryOpType::Sub,
                _ => return Ok(node),
            };
            match self.next() {
                Ok(()) => {},
                Err(e) => return Err(e),
            }
            proof {
                lemma_mul_shrinks(self.upcoming());
            }
            let rhs = match self.mul() {
                Ok(rhs) => rhs,
                Err(e) => return Err(e),
            };
            node = Node::from_binop(op, node, rhs);
        }
    }

    /// Parses a term: `mul = primary ('*' primary | '/' primary)*`.
    fn mul(&mut self) -> (result: Result<Node, CompileError>)
        requires
            old(self).wf(),
        ensures
            final(self).wf(),
            (result, final(self).upcoming()) == parse_mul(old(self).upcoming()),
        decreases old(self).upcoming().len(), 2nat,
    {
        let mut node = match self.primary() {
            Ok(node) => node,
            Err(e) => return Err(e),
        };
        proof {
            lemma_primary_shrinks(old(self).upcoming());
        }
        loop
            invariant
                self.wf(),
                parse_mul_rest(node, self.upcoming()) == parse_mul(old(self).upcoming()),
                self.upcoming().len() <= old(self).upcoming().len(),
            decreases self.upcoming().len(),
        {
            let op = match self.current_token {
                Token::Keyword(KeywordType::Mul) => BinaryOpType::Mul,
                Token::Keyword(KeywordType::Div) => BinaryOpType::Div,
                _ => return Ok(node),
            };
            match self.next() {
                Ok(()) => {},
                Err(e) => return Err(e),
            }
            proof {
                lemma_primary_shrinks(self.upcoming());
            }
            let rhs = match self.primary() {
                Ok(rhs) => rhs,
                Err(e) => return Err(e),
            };
            node = Node::from_binop(op, node, rhs);
        }
    }

    /// Parses a factor: a number, or an expression in brackets.
    fn primary(&mut self) -> (result: Result<Node, CompileError>)
        requires
            old(self).wf(),
        ensures
            final(self).wf(),
            (result, final(self).upcoming()) == parse_primary(old(self).upcoming()),
        decreases old(self).upcoming().len(), 0nat,
    {
        match self.current_token {
            Token::Number(n) => {
                match self.next() {
                    Ok(()) => Ok(Node::from_num(n)),
                    Err(e) => Err(e),
                }
            },
            Token::Keyword(KeywordType::Lbracket) => {
                match self.next() {
                    Ok(()) => {},
                    Err(e) => return Err(e),
                }
                let node = match self.expr() {
                    Ok(node) => node,
                    Err(e) => return Err(e),
                };
                match self.current_token {
                    Token::Keyword(KeywordType::Rbracket) => {
                        match self.next() {
                            Ok(()) => Ok(node),
                            Err(e) => Err(e),
                        }
                    },
                    _ => Err(CompileError::UnbalancedParentheses),
                }
            },
            Token::Eof => Err(CompileError::UnexpectedEndOfInput),
            _ => Err(CompileError::UnexpectedToken),
        }
    }
}

} // verus!
