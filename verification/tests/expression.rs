use tiny_c_compiler::codegen::Instruction;
use tiny_c_compiler::compiler::{assembly, compile};
use tiny_c_compiler::error::CompileError;
use tiny_c_compiler::scanner::numerals_representable;

/// Runs a program as the machine would: the accumulator at the end, or `None` where
/// the machine faults.
fn run(program: &[Instruction]) -> Option<i64> {
    let mut rax: i64 = 0;
    let mut rdi: i64 = 0;
    let mut rdx: i64 = 0;
    let mut stack: Vec<i64> = Vec::new();
    for instruction in program {
        match instruction {
            Instruction::LoadImmediate(value) => rax = *value,
            Instruction::Push => stack.push(rax),
            Instruction::Pop => rdi = stack.pop()?,
            Instruction::Add => rax = rax.wrapping_add(rdi),
            Instruction::Sub => rax = rax.wrapping_sub(rdi),
            Instruction::Mul => rax = rax.wrapping_mul(rdi),
            Instruction::SignExtend => rdx = if rax < 0 { -1 } else { 0 },
            Instruction::Div => {
                if rdi == 0 {
                    return None;
                }
                let dividend = ((rdx as i128) << 64) | (rax as u64 as i128);
                let quotient = dividend / (rdi as i128);
                if quotient < i64::MIN as i128 || quotient > i64::MAX as i128 {
                    return None;
                }
                rdx = (dividend % (rdi as i128)) as i64;
                rax = quotient as i64;
            }
        }
    }
    if stack.is_empty() {
        Some(rax)
    } else {
        None
    }
}

fn translate(expr: &str) -> Result<Vec<Instruction>, CompileError> {
    assert!(numerals_representable(expr));
    compile(expr.to_string())
}

fn evaluate(expr: &str) -> Option<i64> {
    run(&translate(expr).unwrap())
}

/// Translates `expr`, runs the program and holds its exit status against
/// `expected_value`.
fn expr_test_func(expr: &str, expected_value: i32) {
    let program = translate(expr).unwrap();
    let text = assembly(&program);
    assert_eq!(text.len(), program.len() + 3);
    let accumulator = run(&program).unwrap();
    println!("expr: {}, expected_value: {}", expr, expected_value);
    assert_eq!(accumulator.rem_euclid(256) as i32, expected_value);
}

#[test]
fn test_basic_expr_with_single_number() {
    expr_test_func("0", 0);
    expr_test_func("1", 1);
    expr_test_func("123", 123);
}

#[test]
fn test_basic_add() {
    expr_test_func("1+2", 3);
    expr_test_func("1+2+3", 6);
    expr_test_func("1+2+3+4", 10);
}

#[test]
fn test_basic_sub() {
    // notice! the sub operation is not support the negative number
    expr_test_func("4-2", 2);
    expr_test_func("4-2-1", 1);
    expr_test_func("4-2-1-1", 0);
}

#[test]
fn test_basic_mul() {
    expr_test_func("1*2", 2);
    expr_test_func("1*2*3", 6);
    expr_test_func("1*2*3*4", 24);
}

#[test]
fn test_basic_div() {
    expr_test_func("4/2", 2);
    expr_test_func("4/2/2", 1);
    expr_test_func("4/2/2/2", 0);
}

#[test]
fn test_basic_bracket() {
    expr_test_func("(1+2)", 3);
    expr_test_func("(1+2)*3", 9);
    expr_test_func("(1+2)*(3+4)", 21);
}

#[test]
fn test_basic_expr_easy_expr() {
    expr_test_func("5+20-4", 21);
    expr_test_func("12+34-5", 41);
    expr_test_func("5+6*7", 47);
    expr_test_func("5*(9-6)", 15);
    expr_test_func("(3+5)/2", 4);
}

#[test]
fn a_bare_number_evaluates_to_itself() {
    assert_eq!(evaluate("0"), Some(0));
    assert_eq!(evaluate("1234567"), Some(1234567));
    assert_eq!(translate("1234567"), Ok(vec![Instruction::LoadImmediate(1234567)]));
    assert_eq!(evaluate("9223372036854775807"), Some(i64::MAX));
}

#[test]
fn sums_are_folded_from_the_left() {
    assert_eq!(evaluate("5+20-4"), Some(21));
    assert_eq!(evaluate("12+34-5"), Some(41));
    assert_eq!(evaluate("10-3-2"), Some(5));
    assert_eq!(evaluate("1-2"), Some(-1));
    assert_eq!(evaluate("1-2+3"), Some(2));
}

#[test]
fn the_exit_status_is_the_low_eight_bits() {
    expr_test_func("200+100", 44);
    expr_test_func("1-2", 255);
    expr_test_func("256", 0);
}

#[test]
fn sums_wrap_around() {
    assert_eq!(evaluate("9223372036854775807+1"), Some(i64::MIN));
    assert_eq!(evaluate("0-9223372036854775807-2"), Some(i64::MAX));
}

#[test]
fn division_truncates_toward_zero() {
    assert_eq!(evaluate("4/2/2/2"), Some(0));
    assert_eq!(evaluate("7/2"), Some(3));
    assert_eq!(evaluate("(0-7)/2"), Some(-3));
    assert_eq!(evaluate("7/(0-2)"), Some(-3));
    assert_eq!(evaluate("(0-7)/(0-2)"), Some(3));
    assert_eq!(evaluate("(1-4)/2"), Some(-1));
    assert_eq!(evaluate("100/7/2"), Some(7));
}

#[test]
fn division_by_zero_is_left_to_the_program() {
    let program = translate("1/0").unwrap();
    assert_eq!(
        program,
        vec![
            Instruction::LoadImmediate(0),
            Instruction::Push,
            Instruction::LoadImmediate(1),
            Instruction::Pop,
            Instruction::SignExtend,
            Instruction::Div,
        ]
    );
    assert_eq!(run(&program), None);
    assert_eq!(evaluate("(0-9223372036854775807-1)/(0-1)"), None);
}

#[test]
fn precedence_and_brackets() {
    assert_eq!(evaluate("5+6*7"), Some(47));
    assert_eq!(evaluate("(5+6)*7"), Some(77));
    assert_eq!(evaluate("(3+5)/2"), Some(4));
    assert_eq!(evaluate("3+5/2"), Some(5));
    assert_eq!(evaluate("(1+2)*(3+4)"), Some(21));
    assert_eq!(evaluate("5*(9-6)"), Some(15));
    assert_eq!(evaluate("((2+3)*(4-(1+1)))/5"), Some(2));
    assert_eq!(evaluate(" ( 1 + 2 ) \t* 3\n"), Some(9));
}

#[test]
fn malformed_input_is_rejected() {
    assert_eq!(translate("1+"), Err(CompileError::UnexpectedEndOfInput));
    assert_eq!(translate("(1+2"), Err(CompileError::UnbalancedParentheses));
    assert_eq!(translate("1+*2"), Err(CompileError::UnexpectedToken));
    assert_eq!(translate("@"), Err(CompileError::LexicalError));
    assert_eq!(translate(""), Err(CompileError::UnexpectedEndOfInput));
}

#[test]
fn input_after_the_expression_is_rejected() {
    assert_eq!(translate("1 2"), Err(CompileError::UnexpectedToken));
    assert_eq!(translate("1+2)"), Err(CompileError::UnexpectedToken));
    assert_eq!(translate("(1)(2)"), Err(CompileError::UnexpectedToken));
    assert_eq!(translate("1 2 @"), Err(CompileError::UnexpectedToken));
    assert_eq!(translate("1 @"), Err(CompileError::LexicalError));
}

#[test]
fn translation_is_repeatable() {
    for source in ["5+6*7", "(1+2)*(3+4)", "4/2/2/2", "1+", "@"] {
        let once = translate(source);
        let again = translate(source);
        assert_eq!(once, again);
        if let (Ok(first), Ok(second)) = (once, again) {
            assert_eq!(assembly(&first), assembly(&second));
        }
    }
}

#[test]
fn the_program_for_a_sum() {
    assert_eq!(
        assembly(&translate("1+2").unwrap()),
        vec![
            "  .globl main",
            "main:",
            "    mov $2, %rax",
            "    push %rax",
            "    mov $1, %rax",
            "    pop %rdi",
            "    add %rdi, %rax",
            "    ret",
        ]
    );
}
