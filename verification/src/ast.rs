//! The abstract syntax tree of an expression.

use crate::scanner::KeywordType;
use vstd::prelude::*;

verus! {

/// The binary operations of the language.
#[derive(Debug, Clone, Copy, PartialEq, Eq, Structural)]
pub enum BinaryOpType {
    Add,
    Sub,
    Mul,
    Div,
}

impl BinaryOpType {
    /// The operation that `keyword` denotes; the brackets denote none.
    pub open spec fn of_keyword(keyword: KeywordType) -> Option<BinaryOpType> {
        match keyword {
            KeywordType::Add => Some(BinaryOpType::Add),
            KeywordType::Sub => Some(BinaryOpType::Sub),
            KeywordType::Mul => Some(BinaryOpType::Mul),
            KeywordType::Div => Some(BinaryOpType::Div),
            _ => None,
        }
    }

    /// The operation that `keyword` denotes, or `None` for a bracket.
    pub fn from_keyword(keyword: &KeywordType) -> (op: Option<BinaryOpType>)
        ensures
            op == Self::of_keyword(*keyword),
    {
        match keyword {
            KeywordType::Add => Some(BinaryOpType::Add),
            KeywordType::Sub => Some(BinaryOpType::Sub),
            KeywordType::Mul => Some(BinaryOpType::Mul),
            KeywordType::Div => Some(BinaryOpType::Div),
            _ => None,
        }
    }
}

/// An expression: a number, or an operation on two expressions. A node owns its
/// operands, so the whole is a tree.
#[derive(Debug, PartialEq, Eq)]
pub enum Node {
    NUM(i64),
    BINOP { op: BinaryOpType, lhs: Box<Node>, rhs: Box<Node> },
}

impl Node {
    /// The number of nodes of the tree.
    pub open spec fn size(self) -> nat
        decreases self,
    {
        match self {
            Node::NUM(_) => 1,
            Node::BINOP { op, lhs, rhs } => 1 + lhs.size() + rhs.size(),
        }
    }

    /// The expression that is the number `num`.
    pub fn from_num(num: i64) -> (node: Node)
        ensures
            node == Node::NUM(num),
    {
        Self::NUM(num)
    }

    /// The expression that applies `op` to `lhs` and `rhs`.
    pub fn from_binop(op: BinaryOpType, lhs: Node, rhs: Node) -> (node: Node)
        ensures
            node == (Node::BINOP { op, lhs: Box::new(lhs), rhs: Box::new(rhs) }),
    {
        Self::BINOP { op, lhs: Box::new(lhs), rhs: Box::new(rhs) }
    }
}

} // verus!
