//! The whole translation: from source text to the program that computes its value.

use crate::ast::{BinaryOpType, Node};
use crate::codegen::{code, gen_expr, Instruction};
use crate::error::CompileError;
use crate::grammar::{lookahead, parse_expr};
use crate::machine::{
    exit_status, folded, lemma_folded_sum, run, sum, theorem_code_computes_value, value, wrap,
    Machine,
};
use crate::notation::{
    lemma_chain_is_writable, non_negative, text, theorem_text_is_scanned, writable,
};
use crate::parser::TinyCParser;
use crate::scanner::{
    decimal_value, is_digit, lemma_digit_run_is, lemma_tokens_unfold, numerals_fit, tokens,
    Lexeme, TinyCScanner, Token,
};
use crate::stream::BasicStream;
use crate::syntax::{
    all_additive, all_multiplicative, chain, lemma_chain, lemma_number, spelled,
    theorem_expression, Syntax,
};
use vstd::prelude::*;
use vstd::string::*;
use vstd::utf8::encode_utf8;

verus! {

/// The program for the source text `source`: the code for the expression that its
/// tokens spell. The text is rejected where its tokens are no expression, and with
/// `UnexpectedToken` where an expression is followed by anything but the end.
pub open spec fn translation(source: Seq<u8>) -> Result<Seq<Instruction>, CompileError> {
    let (parsed, after) = parse_expr(tokens(source));
    match parsed {
        Ok(node) => match lookahead(after) {
            Ok(Token::Eof) => Ok(code(node)),
            _ => Err(CompileError::UnexpectedToken),
        },
        Err(e) => Err(e),
    }
}

/// What came out of a translation: the instructions of the program, or the error.
pub open spec fn outcome(program: Result<Vec<Instruction>, CompileError>) -> Result<
    Seq<Instruction>,
    CompileError,
> {
    match program {
        Ok(instructions) => Ok(instructions@),
        Err(e) => Err(e),
    }
}

/// Translates `source`. No part of a program comes out of a source that is rejected.
pub fn compile(source: String) -> (program: Result<Vec<Instruction>, CompileError>)
    requires
        numerals_fit(encode_utf8(source@)),
    ensures
        outcome(program) == translation(encode_utf8(source@)),
{
    let scanner = TinyCScanner::new(BasicStream::new_with_string(source));
    let mut parser = match TinyCParser::new(scanner) {
        Ok(parser) => parser,
        Err(e) => return Err(e),
    };
    let node = match parser.expr() {
        Ok(node) => node,
        Err(e) => return Err(e),
    };
    match parser.get_current_token() {
        Token::Eof => {},
        _ => return Err(CompileError::UnexpectedToken),
    }
    let mut instructions: Vec<Instruction> = Vec::new();
    gen_expr(&node, &mut instructions);
    Ok(instructions)
}

/// The text of the program `program`, line by line: the declaration of `main`, its
/// label, the instructions, and the return.
pub open spec fn listing(program: Seq<Instruction>) -> Seq<Seq<char>> {
    seq!["  .globl main"@, "main:"@] + program.map_values(|i: Instruction| i.text()) + seq![
        "    ret"@,
    ]
}

/// The lines of assembly text that make up `program` as the routine `main`.
pub fn assembly(program: &Vec<Instruction>) -> (lines: Vec<String>)
    ensures
        lines.deep_view() == listing(program@),
{
    let mut lines: Vec<String> = Vec::new();
    lines.push(String::from_str("  .globl main"));
    lines.push(String::from_str("main:"));
    let mut index: usize = 0;
    while index < program.len()
        invariant
            index <= program@.len(),
            lines@.len() == index + 2,
            lines@[0]@ == "  .globl main"@,
            lines@[1]@ == "main:"@,
            forall|k: int| 2 <= k < index + 2 ==> (#[trigger] lines@[k])@ == program@[k - 2].text(),
        decreases program@.len() - index,
    {
        lines.push(program[index].line());
        index += 1;
    }
    lines.push(String::from_str("    ret"));
    lines
}

/// The end of the input, as the scanner yields it.
pub open spec fn end() -> Seq<Lexeme> {
    seq![Ok(Token::Eof)]
}

/// Whether the program `program`, run from the state `m`, computes `result`: it ends
/// with `result` in the accumulator and the stack as it was, or faults where `result`
/// is `None`.
pub open spec fn computes(program: Seq<Instruction>, m: Machine, result: Option<i64>) -> bool {
    match result {
        Some(number) => run(m, program) matches Some(halted) && halted.accumulator == number
            && halted.stack == m.stack,
        None => run(m, program) is None,
    }
}

/// A source whose tokens spell an expression is translated to the code for the tree
/// of that expression, and this program computes the value of the tree.
pub proof fn theorem_expression_translates(source: Seq<u8>, written: Syntax, m: Machine)
    requires
        written.is_expression(),
        tokens(source) == written.lexemes() + end(),
    ensures
        translation(source) == Ok::<Seq<Instruction>, CompileError>(code(written.tree())),
        computes(code(written.tree()), m, value(written.tree())),
{
    theorem_expression(written, end());
    theorem_code_computes_value(written.tree(), m);
}

/// The value of numbers joined by operators of one level is what working through
/// them from the left gives.
pub proof fn lemma_chain_value(first: i64, more: Seq<(BinaryOpType, i64)>)
    ensures
        value(chain(first, more).tree()) == folded(first, more),
    decreases more.len(),
{
    if more.len() > 0 {
        lemma_chain_value(first, more.drop_last());
        lemma_number(more.last().1);
        assert(value(Node::NUM(more.last().1)) == Some(more.last().1));
    }
}

/// Numbers joined by operators of one level are evaluated from the left: the program
/// for such a source computes what working through it from the left gives. For
/// `4/2/2/2` that is `((4/2)/2)/2`.
pub proof fn theorem_evaluation_runs_from_the_left(
    source: Seq<u8>,
    first: i64,
    more: Seq<(BinaryOpType, i64)>,
    m: Machine,
)
    requires
        all_additive(more) || all_multiplicative(more),
        tokens(source) == spelled(first, more) + end(),
    ensures
        translation(source) == Ok::<Seq<Instruction>, CompileError>(
            code(chain(first, more).tree()),
        ),
        computes(code(chain(first, more).tree()), m, folded(first, more)),
{
    lemma_chain(first, more);
    lemma_chain_value(first, more);
    theorem_expression_translates(source, chain(first, more), m);
}

/// The exit status of the program for `source` when it is run from the state `m`;
/// `None` where the source is rejected or the program faults.
pub open spec fn status(source: Seq<u8>, m: Machine) -> Option<int> {
    match translation(source) {
        Ok(program) => match run(m, program) {
            Some(halted) => Some(exit_status(halted)),
            None => None,
        },
        Err(_) => None,
    }
}

/// Numbers joined by `+` and `-`: the program ends with their sum, taken from the
/// left, and its exit status is that sum as far as eight bits hold it.
pub proof fn theorem_sum_is_exit_status(
    source: Seq<u8>,
    first: i64,
    more: Seq<(BinaryOpType, i64)>,
    m: Machine,
)
    requires
        all_additive(more),
        tokens(source) == spelled(first, more) + end(),
    ensures
        computes(code(chain(first, more).tree()), m, Some(wrap(sum(first, more)))),
        status(source, m) == Some(sum(first, more) % 256),
        0 <= sum(first, more) < 256 ==> status(source, m) == Some(sum(first, more)),
{
    theorem_evaluation_runs_from_the_left(source, first, more, m);
    lemma_folded_sum(first, more);
}

/// The text of an expression is a source that can be translated, and its program
/// computes the value of the expression as the grammar groups it: products before
/// sums, operators of one level from the left, and what stands in brackets first.
pub proof fn theorem_text_is_evaluated(written: Syntax, m: Machine)
    requires
        written.is_expression(),
        writable(written),
    ensures
        numerals_fit(text(written)),
        translation(text(written)) == Ok::<Seq<Instruction>, CompileError>(code(written.tree())),
        computes(code(written.tree()), m, value(written.tree())),
{
    theorem_text_is_scanned(written);
    theorem_expression_translates(text(written), written, m);
}

/// The text of numbers joined by `+` and `-`, none of them negative, is a source
/// that can be translated, and the exit status of its program is the sum of the
/// numbers, taken from the left, as far as eight bits hold it.
pub proof fn theorem_text_of_sum_is_evaluated(
    first: i64,
    more: Seq<(BinaryOpType, i64)>,
    m: Machine,
)
    requires
        non_negative(first, more),
        all_additive(more),
    ensures
        numerals_fit(text(chain(first, more))),
        status(text(chain(first, more)), m) == Some(sum(first, more) % 256),
        0 <= sum(first, more) < 256 ==> status(text(chain(first, more)), m) == Some(
            sum(first, more),
        ),
{
    let written = chain(first, more);
    lemma_chain(first, more);
    lemma_chain_is_writable(first, more);
    theorem_text_is_scanned(written);
    theorem_sum_is_exit_status(text(written), first, more, m);
}

/// A source that is one numeral is translated to the program that loads the value of
/// the numeral, and this program ends with that value.
pub proof fn theorem_number_is_its_value(source: Seq<u8>, m: Machine)
    requires
        source.len() > 0,
        forall|i: int| 0 <= i < source.len() ==> is_digit(#[trigger] source[i]),
        decimal_value(source) <= i64::MAX,
    ensures
        translation(source) == Ok::<Seq<Instruction>, CompileError>(
            seq![Instruction::LoadImmediate(decimal_value(source) as i64)],
        ),
        computes(
            seq![Instruction::LoadImmediate(decimal_value(source) as i64)],
            m,
            Some(decimal_value(source) as i64),
        ),
{
    let number = decimal_value(source) as i64;
    lemma_digit_run_is(source, source.len() as int);
    assert(source.take(source.len() as int) =~= source);
    lemma_tokens_unfold(source);
    lemma_number(number);
    theorem_expression_translates(source, Syntax::Number(number), m);
}

/// Translation is a function of the source: two translations of one source come out
/// alike, down to the text of the program.
pub proof fn theorem_translation_is_repeatable(
    source: Seq<char>,
    once: Result<Vec<Instruction>, CompileError>,
    again: Result<Vec<Instruction>, CompileError>,
)
    requires
        outcome(once) == translation(encode_utf8(source)),
        outcome(again) == translation(encode_utf8(source)),
    ensures
        outcome(once) == outcome(again),
        once is Err ==> once == again,
        once matches Ok(first) ==> again matches Ok(second) && first@ == second@ && listing(
            first@,
        ) == listing(second@),
{
}

} // verus!
