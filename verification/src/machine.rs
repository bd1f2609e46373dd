//! What the generated code means: a model of the machine that runs it, the value of a
//! tree, and the proof that the code for a tree computes that value.

use crate::ast::{BinaryOpType, Node};
use crate::codegen::{code, operation, Instruction};
use crate::syntax::{all_additive, is_additive};
use vstd::arithmetic::div_mod::{
    lemma_add_mod_noop, lemma_fundamental_div_mod, lemma_mod_add_multiples_vanish, lemma_mod_bound,
    lemma_mod_mod, lemma_mod_sub_multiples_vanish, lemma_small_mod, lemma_sub_mod_noop,
};
use vstd::arithmetic::mul::lemma_mul_unary_negation;
use vstd::prelude::*;

verus! {

/// The state of the machine, as far as the generated code touches it.
pub struct Machine {
    /// The accumulator, `%rax`.
    pub accumulator: i64,
    /// The secondary register, `%rdi`.
    pub secondary: i64,
    /// The register that holds the upper half of a dividend, `%rdx`.
    pub upper: i64,
    /// The stack, with its top last.
    pub stack: Seq<i64>,
}

/// Two to the power of 64.
pub open spec fn word_range() -> int {
    0x1_0000_0000_0000_0000
}

/// The 64-bit number that a register holds after a result `x` was written to it: the
/// one that differs from `x` by a multiple of two to the power of 64.
pub open spec fn wrap(x: int) -> i64 {
    let low = x % word_range();
    if low <= i64::MAX {
        low as i64
    } else {
        (low - word_range()) as i64
    }
}

/// The quotient of `a` by `b`, truncated toward zero.
pub open spec fn quotient(a: int, b: int) -> int
    recommends
        b != 0,
{
    if a >= 0 && b > 0 {
        a / b
    } else if a >= 0 {
        -(a / (-b))
    } else if b > 0 {
        -((-a) / b)
    } else {
        (-a) / (-b)
    }
}

/// The dividend of a division: the upper half and the accumulator, read as one
/// number of 128 bits.
pub open spec fn dividend(m: Machine) -> int {
    m.upper * word_range() + (if m.accumulator < 0 {
        m.accumulator + word_range()
    } else {
        m.accumulator as int
    })
}

/// The state after one instruction, or `None` where the machine faults: on a pop
/// from an empty stack, a division by zero, or a quotient that no register holds.
pub open spec fn execute(m: Machine, instruction: Instruction) -> Option<Machine> {
    match instruction {
        Instruction::LoadImmediate(value) => Some(Machine { accumulator: value, ..m }),
        Instruction::Push => Some(Machine { stack: m.stack.push(m.accumulator), ..m }),
        Instruction::Pop => if m.stack.len() > 0 {
            Some(Machine { secondary: m.stack.last(), stack: m.stack.drop_last(), ..m })
        } else {
            None
        },
        Instruction::Add => Some(Machine { accumulator: wrap(m.accumulator + m.secondary), ..m }),
        Instruction::Sub => Some(Machine { accumulator: wrap(m.accumulator - m.secondary), ..m }),
        Instruction::Mul => Some(Machine { accumulator: wrap(m.accumulator * m.secondary), ..m }),
        Instruction::SignExtend => Some(
            Machine { upper: if m.accumulator < 0 { -1i64 } else { 0i64 }, ..m },
        ),
        Instruction::Div => {
            let q = quotient(dividend(m), m.secondary as int);
            if m.secondary != 0 && i64::MIN <= q <= i64::MAX {
                Some(
                    Machine {
                        accumulator: q as i64,
                        upper: (dividend(m) - q * m.secondary) as i64,
                        ..m
                    },
                )
            } else {
                None
            }
        },
    }
}

/// The state after the instructions of `program`, one after the other, or `None`
/// where one of them faults.
pub open spec fn run(m: Machine, program: Seq<Instruction>) -> Option<Machine>
    decreases program.len(),
{
    if program.len() == 0 {
        Some(m)
    } else {
        match execute(m, program.first()) {
            Some(next) => run(next, program.drop_first()),
            None => None,
        }
    }
}

/// The status with which a program ends that returns with `m`: the low eight bits of
/// the accumulator.
pub open spec fn exit_status(m: Machine) -> int {
    m.accumulator as int % 256
}

/// The result of `op` on `lhs` and `rhs` in 64-bit arithmetic, or `None` where the
/// division is by zero or its quotient is out of range.
pub open spec fn apply(op: BinaryOpType, lhs: i64, rhs: i64) -> Option<i64> {
    match op {
        BinaryOpType::Add => Some(wrap(lhs + rhs)),
        BinaryOpType::Sub => Some(wrap(lhs - rhs)),
        BinaryOpType::Mul => Some(wrap(lhs * rhs)),
        BinaryOpType::Div => {
            let q = quotient(lhs as int, rhs as int);
            if rhs != 0 && i64::MIN <= q <= i64::MAX {
                Some(q as i64)
            } else {
                None
            }
        },
    }
}

/// The value of a tree, or `None` where one of its divisions has no result.
pub open spec fn value(node: Node) -> Option<i64>
    decreases node,
{
    match node {
        Node::NUM(number) => Some(number),
        Node::BINOP { op, lhs, rhs } => match (value(*lhs), value(*rhs)) {
            (Some(left), Some(right)) => apply(op, left, right),
            _ => None,
        },
    }
}

/// Running two programs one after the other is running the one made of both.
pub proof fn lemma_run_sequence(m: Machine, first: Seq<Instruction>, second: Seq<Instruction>)
    ensures
        run(m, first + second) == match run(m, first) {
            Some(between) => run(between, second),
            None => None,
        },
    decreases first.len(),
{
    if first.len() == 0 {
        assert(first + second =~= second);
    } else {
        assert((first + second).drop_first() =~= first.drop_first() + second);
        match execute(m, first.first()) {
            Some(next) => lemma_run_sequence(next, first.drop_first(), second),
            None => {},
        }
    }
}

/// A program of one instruction runs as that instruction executes.
pub proof fn lemma_run_one(m: Machine, instruction: Instruction)
    ensures
        run(m, seq![instruction]) == execute(m, instruction),
{
    let program = seq![instruction];
    assert(program.drop_first() =~= Seq::<Instruction>::empty());
    match execute(m, instruction) {
        Some(next) => {
            assert(run(next, program.drop_first()) == Some(next));
        },
        None => {},
    }
}

/// With the operands of `op` in place, the left in the accumulator and the right in
/// the secondary register, the instructions for `op` leave its result in the
/// accumulator and the stack as it was, and fault where it has no result.
pub proof fn lemma_operation(op: BinaryOpType, m: Machine)
    ensures
        match apply(op, m.accumulator, m.secondary) {
            Some(result) => run(m, operation(op)) matches Some(end) && end.accumulator == result
                && end.stack == m.stack,
            None => run(m, operation(op)) is None,
        },
{
    match op {
        BinaryOpType::Add => lemma_run_one(m, Instruction::Add),
        BinaryOpType::Sub => lemma_run_one(m, Instruction::Sub),
        BinaryOpType::Mul => lemma_run_one(m, Instruction::Mul),
        BinaryOpType::Div => {
            let extended = execute(m, Instruction::SignExtend)->0;
            let program = operation(op);
            assert(program.drop_first() =~= seq![Instruction::Div]);
            assert(program.first() == Instruction::SignExtend);
            lemma_run_one(extended, Instruction::Div);
            assert(dividend(extended) == m.accumulator);
        },
    }
}

/// The code for a tree computes the value of the tree: from any state it ends with
/// that value in the accumulator and the stack as it was. Where the tree has no
/// value, the machine faults.
pub proof fn theorem_code_computes_value(node: Node, m: Machine)
    ensures
        match value(node) {
            Some(result) => run(m, code(node)) matches Some(end) && end.accumulator == result
                && end.stack == m.stack,
            None => run(m, code(node)) is None,
        },
    decreases node,
{
    match node {
        Node::NUM(number) => {
            lemma_run_one(m, Instruction::LoadImmediate(number));
        },
        Node::BINOP { op, lhs, rhs } => {
            let right = code(*rhs);
            let left = code(*lhs);
            let save = seq![Instruction::Push];
            let restore = seq![Instruction::Pop];
            let operate = operation(op);
            lemma_run_sequence(m, right + save + left + restore, operate);
            lemma_run_sequence(m, right + save + left, restore);
            lemma_run_sequence(m, right + save, left);
            lemma_run_sequence(m, right, save);
            theorem_code_computes_value(*rhs, m);
            if let Some(after_right) = run(m, right) {
                lemma_run_one(after_right, Instruction::Push);
                let saved = execute(after_right, Instruction::Push)->0;
                theorem_code_computes_value(*lhs, saved);
                if let Some(after_left) = run(saved, left) {
                    lemma_run_one(after_left, Instruction::Pop);
                    assert(after_left.stack.drop_last() =~= m.stack);
                    let restored = execute(after_left, Instruction::Pop)->0;
                    lemma_operation(op, restored);
                }
            }
        },
    }
}

/// What a register holds differs from the result that was written to it by a
/// multiple of two to the power of 64, and not at all where the result is in range.
/// So the low eight bits are those of the result.
pub proof fn lemma_wrap(x: int)
    ensures
        wrap(x) as int % word_range() == x % word_range(),
        i64::MIN <= x <= i64::MAX ==> wrap(x) == x,
        wrap(x) as int % 256 == x % 256,
{
    let low = x % word_range();
    lemma_mod_bound(x, word_range());
    lemma_small_mod(low as nat, word_range() as nat);
    lemma_mod_sub_multiples_vanish(low, word_range());
    assert(wrap(x) as int % word_range() == x % word_range());
    if 0 <= x <= i64::MAX {
        lemma_small_mod(x as nat, word_range() as nat);
    } else if i64::MIN <= x < 0 {
        lemma_mod_add_multiples_vanish(x, word_range());
        lemma_small_mod((word_range() + x) as nat, word_range() as nat);
    }
    assert(word_range() == 256 * 0x100_0000_0000_0000int);
    lemma_mod_mod(x, 256, 0x100_0000_0000_0000);
    lemma_mod_mod(wrap(x) as int, 256, 0x100_0000_0000_0000);
}

/// Division truncates toward zero: the remainder that the quotient leaves is smaller
/// in magnitude than the divisor, and is zero or has the sign of the dividend.
pub proof fn theorem_quotient_truncates(a: int, b: int)
    requires
        b != 0,
    ensures
        ({
            let remainder = a - quotient(a, b) * b;
            let size = if b < 0 {
                -b
            } else {
                b
            };
            &&& a >= 0 ==> 0 <= remainder < size
            &&& a <= 0 ==> -size < remainder <= 0
        }),
        a >= 0 && b > 0 ==> quotient(a, b) == a / b,
{
    let size = if b < 0 {
        -b
    } else {
        b
    };
    let amount = if a < 0 {
        -a
    } else {
        a
    };
    lemma_fundamental_div_mod(amount, size);
    lemma_mul_unary_negation(amount / size, b);
}

/// The result of working through `more` from the left in 64-bit arithmetic: each
/// operator is applied to the result so far and its number. `None` where a division
/// has no result.
pub open spec fn folded(first: i64, more: Seq<(BinaryOpType, i64)>) -> Option<i64>
    decreases more.len(),
{
    if more.len() == 0 {
        Some(first)
    } else {
        match folded(first, more.drop_last()) {
            Some(so_far) => apply(more.last().0, so_far, more.last().1),
            None => None,
        }
    }
}

/// The sum of `first` and the numbers of `more`, over the integers: each number is
/// subtracted where its operator is `-`, and added otherwise.
pub open spec fn sum(first: i64, more: Seq<(BinaryOpType, i64)>) -> int
    decreases more.len(),
{
    if more.len() == 0 {
        first as int
    } else if more.last().0 == BinaryOpType::Sub {
        sum(first, more.drop_last()) - more.last().1
    } else {
        sum(first, more.drop_last()) + more.last().1
    }
}

/// Working through additions and subtractions in 64-bit arithmetic gives the sum
/// over the integers, as far as a register holds it.
pub proof fn lemma_folded_sum(first: i64, more: Seq<(BinaryOpType, i64)>)
    requires
        all_additive(more),
    ensures
        folded(first, more) == Some(wrap(sum(first, more))),
    decreases more.len(),
{
    if more.len() == 0 {
        lemma_wrap(first as int);
    } else {
        let before = more.drop_last();
        assert forall|i: int| 0 <= i < before.len() implies is_additive(
            #[trigger] before[i].0,
        ) by {
            assert(before[i] == more[i]);
        }
        lemma_folded_sum(first, before);
        let exact = sum(first, before);
        let number = more.last().1 as int;
        assert(is_additive(more[more.len() - 1].0));
        lemma_wrap(exact);
        if more.last().0 == BinaryOpType::Sub {
            lemma_sub_mod_noop(wrap(exact) as int, number, word_range());
            lemma_sub_mod_noop(exact, number, word_range());
        } else {
            lemma_add_mod_noop(wrap(exact) as int, number, word_range());
            lemma_add_mod_noop(exact, number, word_range());
        }
    }
}

} // verus!
