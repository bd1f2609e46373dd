//! Code generation: from a tree to the instructions of a stack machine.
//!
//! The machine has an accumulator (`%rax`), a secondary register (`%rdi`) and a stack.
//! The code for a tree leaves the value of the tree in the accumulator.

use crate::ast::{BinaryOpType, Node};
use crate::decimal::{append_decimal, decimal};
use vstd::prelude::*;
use vstd::string::*;

verus! {

/// One instruction of the generated program, which is one line of its text.
#[derive(Debug, Clone, Copy, PartialEq, Eq, Structural)]
pub enum Instruction {
    /// Loads the number into the accumulator.
    LoadImmediate(i64),
    /// Pushes the accumulator onto the stack.
    Push,
    /// Pops the top of the stack into the secondary register.
    Pop,
    /// Adds the secondary register to the accumulator.
    Add,
    /// Subtracts the secondary register from the accumulator.
    Sub,
    /// Multiplies the accumulator by the secondary register.
    Mul,
    /// Extends the sign of the accumulator into the upper half of the dividend.
    SignExtend,
    /// Divides the dividend by the secondary register; the quotient goes to the
    /// accumulator.
    Div,
}

impl Instruction {
    /// The line of assembly text that is this instruction.
    pub open spec fn text(self) -> Seq<char> {
        match self {
            Instruction::LoadImmediate(value) => "    mov $"@ + decimal(value as int) + ", %rax"@,
            Instruction::Push => "    push %rax"@,
            Instruction::Pop => "    pop %rdi"@,
            Instruction::Add => "    add %rdi, %rax"@,
            Instruction::Sub => "    sub %rdi, %rax"@,
            Instruction::Mul => "    imul %rdi, %rax"@,
            Instruction::SignExtend => "    cqo"@,
            Instruction::Div => "    idiv %rdi"@,
        }
    }

    /// The instruction as a line of assembly text.
    pub fn line(&self) -> (line: String)
        ensures
            line@ == self.text(),
    {
        match self {
            Instruction::LoadImmediate(value) => {
                let mut line = String::from_str("    mov $");
                append_decimal(&mut line, *value);
                line.append(", %rax");
                line
            },
            Instruction::Push => String::from_str("    push %rax"),
            Instruction::Pop => String::from_str("    pop %rdi"),
            Instruction::Add => String::from_str("    add %rdi, %rax"),
            Instruction::Sub => String::from_str("    sub %rdi, %rax"),
            Instruction::Mul => String::from_str("    imul %rdi, %rax"),
            Instruction::SignExtend => String::from_str("    cqo"),
            Instruction::Div => String::from_str("    idiv %rdi"),
        }
    }
}

/// The instructions that apply `op` to the accumulator and the secondary register.
pub open spec fn operation(op: BinaryOpType) -> Seq<Instruction> {
    match op {
        BinaryOpType::Add => seq![Instruction::Add],
        BinaryOpType::Sub => seq![Instruction::Sub],
        BinaryOpType::Mul => seq![Instruction::Mul],
        BinaryOpType::Div => seq![Instruction::SignExtend, Instruction::Div],
    }
}

/// The code for `node`: that of the right operand, whose result is pushed, then that
/// of the left operand, then the operation on the two.
pub open spec fn code(node: Node) -> Seq<Instruction>
    decreases node,
{
    match node {
        Node::NUM(value) => seq![Instruction::LoadImmediate(value)],
        Node::BINOP { op, lhs, rhs } => code(*rhs) + seq![Instruction::Push] + code(*lhs)
            + seq![Instruction::Pop] + operation(op),
    }
}

/// Appends the instruction that saves the accumulator.
fn push(sink: &mut Vec<Instruction>)
    ensures
        final(sink)@ == old(sink)@.push(Instruction::Push),
{
    sink.push(Instruction::Push);
}

/// Appends the instruction that takes the saved value back.
fn pop(sink: &mut Vec<Instruction>)
    ensures
        final(sink)@ == old(sink)@.push(Instruction::Pop),
{
    sink.push(Instruction::Pop);
}

/// Appends the code for `node` to `sink`.
pub fn gen_expr(node: &Node, sink: &mut Vec<Instruction>)
    ensures
        final(sink)@ == old(sink)@ + code(*node),
    decreases *node,
{
    match node {
        Node::NUM(n) => {
            sink.push(Instruction::LoadImmediate(*n));
        },
        Node::BINOP { op, lhs, rhs } => {
            gen_expr(rhs, sink);
            push(sink);
            gen_expr(lhs, sink);
            pop(sink);
            match op {
                BinaryOpType::Add => {
                    sink.push(Instruction::Add);
                },
                BinaryOpType::Sub => {
                    sink.push(Instruction::Sub);
                },
                BinaryOpType::Mul => {
                    sink.push(Instruction::Mul);
                },
                BinaryOpType::Div => {
                    sink.push(Instruction::SignExtend);
                    sink.push(Instruction::Div);
                },
            }
        },
    }
}

} // verus!
