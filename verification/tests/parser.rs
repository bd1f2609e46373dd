use tiny_c_compiler::ast::{BinaryOpType, Node};
use tiny_c_compiler::error::CompileError;
use tiny_c_compiler::parser::TinyCParser;
use tiny_c_compiler::scanner::{KeywordType, TinyCScanner, Token};
use tiny_c_compiler::stream::BasicStream;

fn parser_for(source: &str) -> Result<TinyCParser, CompileError> {
    TinyCParser::new(TinyCScanner::new(BasicStream::new_with_string(source.to_string())))
}

fn parse(source: &str) -> Result<Node, CompileError> {
    parser_for(source)?.expr()
}

fn num(n: i64) -> Node {
    Node::from_num(n)
}

fn bin(op: BinaryOpType, lhs: Node, rhs: Node) -> Node {
    Node::from_binop(op, lhs, rhs)
}

#[test]
fn node_constructors_build_the_variants() {
    assert_eq!(Node::from_num(7), Node::NUM(7));
    assert_eq!(
        Node::from_binop(BinaryOpType::Div, Node::NUM(1), Node::NUM(2)),
        Node::BINOP {
            op: BinaryOpType::Div,
            lhs: Box::new(Node::NUM(1)),
            rhs: Box::new(Node::NUM(2)),
        }
    );
}

#[test]
fn binary_op_from_keyword() {
    assert_eq!(BinaryOpType::from_keyword(&KeywordType::Add), Some(BinaryOpType::Add));
    assert_eq!(BinaryOpType::from_keyword(&KeywordType::Sub), Some(BinaryOpType::Sub));
    assert_eq!(BinaryOpType::from_keyword(&KeywordType::Mul), Some(BinaryOpType::Mul));
    assert_eq!(BinaryOpType::from_keyword(&KeywordType::Div), Some(BinaryOpType::Div));
    assert_eq!(BinaryOpType::from_keyword(&KeywordType::Lbracket), None);
    assert_eq!(BinaryOpType::from_keyword(&KeywordType::Rbracket), None);
}

#[test]
fn parser_starts_at_the_first_token() {
    let parser = parser_for(" 12 + 3").unwrap();
    assert_eq!(parser.get_current_token(), &Token::Number(12));
    let parser = parser_for("").unwrap();
    assert_eq!(parser.get_current_token(), &Token::Eof);
}

#[test]
fn parse_a_number() {
    assert_eq!(parse("0"), Ok(num(0)));
    assert_eq!(parse("1234567"), Ok(num(1234567)));
    assert_eq!(parse("  42\n"), Ok(num(42)));
}

#[test]
fn sums_group_from_the_left() {
    assert_eq!(
        parse("5+20-4"),
        Ok(bin(BinaryOpType::Sub, bin(BinaryOpType::Add, num(5), num(20)), num(4)))
    );
    assert_eq!(
        parse("8-4-2"),
        Ok(bin(BinaryOpType::Sub, bin(BinaryOpType::Sub, num(8), num(4)), num(2)))
    );
}

#[test]
fn products_group_from_the_left() {
    assert_eq!(
        parse("4/2/2"),
        Ok(bin(BinaryOpType::Div, bin(BinaryOpType::Div, num(4), num(2)), num(2)))
    );
    assert_eq!(
        parse("2*3/4"),
        Ok(bin(BinaryOpType::Div, bin(BinaryOpType::Mul, num(2), num(3)), num(4)))
    );
}

#[test]
fn products_bind_tighter_than_sums() {
    assert_eq!(
        parse("5+6*7"),
        Ok(bin(BinaryOpType::Add, num(5), bin(BinaryOpType::Mul, num(6), num(7))))
    );
    assert_eq!(
        parse("6*7-5"),
        Ok(bin(BinaryOpType::Sub, bin(BinaryOpType::Mul, num(6), num(7)), num(5)))
    );
    assert_eq!(
        parse("1+2/3+4"),
        Ok(bin(
            BinaryOpType::Add,
            bin(BinaryOpType::Add, num(1), bin(BinaryOpType::Div, num(2), num(3))),
            num(4)
        ))
    );
}

#[test]
fn brackets_override_the_grouping() {
    assert_eq!(
        parse("(3+5)/2"),
        Ok(bin(BinaryOpType::Div, bin(BinaryOpType::Add, num(3), num(5)), num(2)))
    );
    assert_eq!(
        parse("5*(9-6)"),
        Ok(bin(BinaryOpType::Mul, num(5), bin(BinaryOpType::Sub, num(9), num(6))))
    );
    assert_eq!(
        parse("8-(4-2)"),
        Ok(bin(BinaryOpType::Sub, num(8), bin(BinaryOpType::Sub, num(4), num(2))))
    );
    assert_eq!(parse("(((7)))"), Ok(num(7)));
    assert_eq!(
        parse("((1+2)*(3+4))"),
        Ok(bin(
            BinaryOpType::Mul,
            bin(BinaryOpType::Add, num(1), num(2)),
            bin(BinaryOpType::Add, num(3), num(4))
        ))
    );
}

#[test]
fn parse_leaves_the_end_of_input_as_current_token() {
    let mut parser = parser_for("1+2").unwrap();
    assert!(parser.expr().is_ok());
    assert_eq!(parser.get_current_token(), &Token::Eof);
}

#[test]
fn parse_stops_before_what_is_no_part_of_the_expression() {
    let mut parser = parser_for("1 2").unwrap();
    assert_eq!(parser.expr(), Ok(num(1)));
    assert_eq!(parser.get_current_token(), &Token::Number(2));

    let mut parser = parser_for("1+2)*3").unwrap();
    assert_eq!(parser.expr(), Ok(bin(BinaryOpType::Add, num(1), num(2))));
    assert_eq!(parser.get_current_token(), &Token::Keyword(KeywordType::Rbracket));
}

#[test]
fn unexpected_end_of_input() {
    assert_eq!(parse("1+"), Err(CompileError::UnexpectedEndOfInput));
    assert_eq!(parse(""), Err(CompileError::UnexpectedEndOfInput));
    assert_eq!(parse("   "), Err(CompileError::UnexpectedEndOfInput));
    assert_eq!(parse("("), Err(CompileError::UnexpectedEndOfInput));
    assert_eq!(parse("2*(3-"), Err(CompileError::UnexpectedEndOfInput));
}

#[test]
fn unbalanced_parentheses() {
    assert_eq!(parse("(1+2"), Err(CompileError::UnbalancedParentheses));
    assert_eq!(parse("(1+2 3)"), Err(CompileError::UnbalancedParentheses));
    assert_eq!(parse("((1)"), Err(CompileError::UnbalancedParentheses));
}

#[test]
fn unexpected_token() {
    assert_eq!(parse("1+*2"), Err(CompileError::UnexpectedToken));
    assert_eq!(parse(")"), Err(CompileError::UnexpectedToken));
    assert_eq!(parse("*3"), Err(CompileError::UnexpectedToken));
    assert_eq!(parse("()"), Err(CompileError::UnexpectedToken));
    assert_eq!(parse("-1"), Err(CompileError::UnexpectedToken));
}

#[test]
fn lexical_error() {
    assert!(matches!(parser_for("@"), Err(CompileError::LexicalError)));
    assert_eq!(parse("1+@"), Err(CompileError::LexicalError));
    assert_eq!(parse("1 @"), Err(CompileError::LexicalError));
    assert_eq!(parse("(1+2$"), Err(CompileError::LexicalError));
    assert_eq!(parse("(1)x"), Err(CompileError::LexicalError));
    assert_eq!(parse("1.5"), Err(CompileError::LexicalError));
}

#[test]
fn a_lexical_error_beyond_the_lookahead_is_not_met() {
    // The parser stops at `2`, one token before the unknown byte.
    let mut parser = parser_for("1 2 @").unwrap();
    assert_eq!(parser.expr(), Ok(num(1)));
}
