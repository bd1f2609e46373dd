//! Lexical scanning: from the bytes of the source text to tokens.
//!
//! The rules are stated once, as the spec function [`scan`], on a sequence of bytes.
//! [`tokens`] applies it over and over and so gives the whole token sequence of an input.

use crate::error::CompileError;
use crate::stream::{BasicStream, Stream};
use vstd::prelude::*;
use vstd::string::StringSliceAdditionalSpecFns;
use vstd::utf8::encode_utf8;

verus! {

/// The operator symbols of the language.
#[derive(Debug, Clone, Copy, PartialEq, Eq, Structural)]
pub enum KeywordType {
    Mul,
    Div,
    Add,
    Sub,
    Lbracket,
    Rbracket,
}

impl KeywordType {
    /// Whether `c` is one of `* / + - ( )`.
    pub open spec fn is_symbol(c: char) -> bool {
        c == '*' || c == '/' || c == '+' || c == '-' || c == '(' || c == ')'
    }

    /// The keyword that the symbol `c` stands for.
    pub open spec fn of_symbol(c: char) -> KeywordType {
        if c == '*' {
            KeywordType::Mul
        } else if c == '/' {
            KeywordType::Div
        } else if c == '+' {
            KeywordType::Add
        } else if c == '-' {
            KeywordType::Sub
        } else if c == '(' {
            KeywordType::Lbracket
        } else {
            KeywordType::Rbracket
        }
    }

    /// The keyword written as `c`.
    pub fn from_char(c: char) -> (keyword: KeywordType)
        requires
            Self::is_symbol(c),
        ensures
            keyword == Self::of_symbol(c),
    {
        if c == '*' {
            KeywordType::Mul
        } else if c == '/' {
            KeywordType::Div
        } else if c == '+' {
            KeywordType::Add
        } else if c == '-' {
            KeywordType::Sub
        } else if c == '(' {
            KeywordType::Lbracket
        } else {
            KeywordType::Rbracket
        }
    }
}

/// A lexical unit. The scanner produces `Keyword`, `Number` and `Eof` only.
#[derive(Debug, PartialEq)]
pub enum Token {
    /// An operator symbol.
    Keyword(KeywordType),
    /// An unsigned decimal numeral, by its value.
    Number(i64),
    /// The name of a variable.
    Var(String),
    /// The end of the input.
    Eof,
    /// A token that has not been given a value yet.
    Unknown,
}

impl Token {
    /// The value of a `Number` token.
    pub fn get_number(&self) -> (number: i64)
        requires
            self is Number,
        ensures
            number == self->Number_0,
    {
        match self {
            Token::Number(number) => *number,
            _ => vstd::pervasive::unreached(),
        }
    }

    /// Whether the token is `Eof`. An `Unknown` token has no answer.
    pub fn is_eof(&self) -> (eof: bool)
        requires
            !(self is Unknown),
        ensures
            eof == (self is Eof),
    {
        match self {
            Token::Eof => true,
            _ => false,
        }
    }

    /// The keyword of a `Keyword` token.
    pub fn get_keyword(&self) -> (keyword: &KeywordType)
        requires
            self is Keyword,
        ensures
            *keyword == self->Keyword_0,
    {
        match self {
            Token::Keyword(keyword) => keyword,
            _ => vstd::pervasive::unreached(),
        }
    }
}

/// What one step of scanning yields: a token, or the error that stops the scan.
pub type Lexeme = Result<Token, CompileError>;

/// Whether `b` is an ASCII decimal digit.
pub open spec fn is_digit(b: u8) -> bool {
    '0' as u8 <= b <= '9' as u8
}

/// Whether `b` is ASCII whitespace: space, tab, line feed, form feed or carriage return.
pub open spec fn is_whitespace(b: u8) -> bool {
    b == 0x20 || b == 0x09 || b == 0x0a || b == 0x0c || b == 0x0d
}

/// `s` without its leading whitespace.
pub open spec fn skip_whitespace(s: Seq<u8>) -> Seq<u8>
    decreases s.len(),
{
    if s.len() > 0 && is_whitespace(s[0]) {
        skip_whitespace(s.drop_first())
    } else {
        s
    }
}

/// The number of digits that `s` begins with.
pub open spec fn digit_run(s: Seq<u8>) -> nat
    decreases s.len(),
{
    if s.len() > 0 && is_digit(s[0]) {
        1 + digit_run(s.drop_first())
    } else {
        0
    }
}

/// The number that the digits `digits` denote in base ten.
pub open spec fn decimal_value(digits: Seq<u8>) -> nat
    decreases digits.len(),
{
    if digits.len() == 0 {
        0
    } else {
        10 * decimal_value(digits.drop_last()) + (digits.last() - '0' as u8) as nat
    }
}

/// The numeral that `s` begins with: its longest prefix of digits.
pub open spec fn leading_numeral(s: Seq<u8>) -> Seq<u8> {
    s.take(digit_run(s) as int)
}

/// One step of scanning: the first token of `s` and the bytes that follow it.
///
/// Whitespace before the token is dropped. A digit starts a numeral, which runs as far
/// as digits go. At an unknown byte the scan stops, and stays there.
pub open spec fn scan(s: Seq<u8>) -> (Lexeme, Seq<u8>) {
    let t = skip_whitespace(s);
    if t.len() == 0 {
        (Ok(Token::Eof), t)
    } else if is_digit(t[0]) {
        (
            Ok(Token::Number(decimal_value(leading_numeral(t)) as i64)),
            t.skip(digit_run(t) as int),
        )
    } else if KeywordType::is_symbol(t[0] as char) {
        (Ok(Token::Keyword(KeywordType::of_symbol(t[0] as char))), t.skip(1))
    } else {
        (Err(CompileError::LexicalError), t)
    }
}

/// Whether the first token of `s`, if it is a numeral, has a value that an `i64` holds.
pub open spec fn numeral_fits(s: Seq<u8>) -> bool {
    decimal_value(leading_numeral(skip_whitespace(s))) <= i64::MAX
}

/// Whether scanning goes on after `lexeme`: it does after every token but `Eof`.
pub open spec fn goes_on(lexeme: Lexeme) -> bool {
    lexeme matches Ok(token) && !(token is Eof)
}

/// The whole token sequence of `s`: its tokens in order, up to and including the
/// `Eof` or the lexical error that ends it.
pub open spec fn tokens(s: Seq<u8>) -> Seq<Lexeme>
    decreases s.len(),
{
    let (lexeme, rest) = scan(s);
    if goes_on(lexeme) && rest.len() < s.len() {
        seq![lexeme] + tokens(rest)
    } else {
        seq![lexeme]
    }
}

/// Whether every numeral among the tokens of `s` has a value that an `i64` holds.
pub open spec fn numerals_fit(s: Seq<u8>) -> bool
    decreases s.len(),
{
    let (lexeme, rest) = scan(s);
    numeral_fits(s) && (goes_on(lexeme) && rest.len() < s.len() ==> numerals_fit(rest))
}

/// Dropping whitespace never lengthens the input, and what is left does not begin
/// with whitespace.
pub proof fn lemma_skip_whitespace(s: Seq<u8>)
    ensures
        skip_whitespace(s).len() <= s.len(),
        skip_whitespace(s).len() > 0 ==> !is_whitespace(skip_whitespace(s)[0]),
        skip_whitespace(skip_whitespace(s)) == skip_whitespace(s),
    decreases s.len(),
{
    if s.len() > 0 && is_whitespace(s[0]) {
        lemma_skip_whitespace(s.drop_first());
    }
}

/// A run of digits lies within the input, holds digits only, and ends at the end of
/// the input or before a byte that is no digit.
pub proof fn lemma_digit_run(s: Seq<u8>)
    ensures
        digit_run(s) <= s.len(),
        forall|i: int| 0 <= i < digit_run(s) ==> is_digit(#[trigger] s[i]),
        digit_run(s) < s.len() ==> !is_digit(s[digit_run(s) as int]),
    decreases s.len(),
{
    if s.len() > 0 && is_digit(s[0]) {
        let t = s.drop_first();
        lemma_digit_run(t);
        assert forall|i: int| 0 <= i < digit_run(s) implies is_digit(#[trigger] s[i]) by {
            if i > 0 {
                assert(s[i] == t[i - 1]);
            }
        }
    }
}

/// Where the first `n` bytes of `s` are digits and no digit follows them, the run of
/// digits that `s` begins with has length `n`.
pub proof fn lemma_digit_run_is(s: Seq<u8>, n: int)
    requires
        0 <= n <= s.len(),
        forall|i: int| 0 <= i < n ==> is_digit(#[trigger] s[i]),
        n < s.len() ==> !is_digit(s[n]),
    ensures
        digit_run(s) == n,
    decreases n,
{
    if n > 0 {
        lemma_digit_run_is(s.drop_first(), n - 1);
    }
}

/// A token other than `Eof` uses up at least one byte, and no step of scanning
/// lengthens the input.
pub proof fn lemma_scan_shrinks(s: Seq<u8>)
    ensures
        scan(s).1.len() <= s.len(),
        goes_on(scan(s).0) ==> scan(s).1.len() < s.len(),
{
    let t = skip_whitespace(s);
    lemma_skip_whitespace(s);
    if t.len() > 0 && is_digit(t[0]) {
        lemma_digit_run(t);
    }
}

/// After `Eof` or a lexical error, scanning again gives the same again.
pub proof fn lemma_scan_stays(s: Seq<u8>)
    requires
        !goes_on(scan(s).0),
    ensures
        scan(scan(s).1) == scan(s),
{
    lemma_skip_whitespace(s);
}

/// The token sequence of an input is its first token followed by the token sequence
/// of the rest, and ends with its first token where that is `Eof` or an error.
pub proof fn lemma_tokens_unfold(s: Seq<u8>)
    ensures
        goes_on(scan(s).0) ==> tokens(s) == seq![scan(s).0] + tokens(scan(s).1),
        !goes_on(scan(s).0) ==> tokens(s) == seq![scan(s).0],
        numerals_fit(s) ==> numeral_fits(s),
        numerals_fit(s) && goes_on(scan(s).0) ==> numerals_fit(scan(s).1),
{
    lemma_scan_shrinks(s);
}

/// Where every numeral of an input fits, so does every numeral of what one step of
/// scanning leaves: a scanner that could take one step can take the next.
pub proof fn theorem_numerals_still_fit(s: Seq<u8>)
    requires
        numerals_fit(s),
    ensures
        numerals_fit(scan(s).1),
{
    lemma_scan_shrinks(s);
    if !goes_on(scan(s).0) {
        lemma_scan_stays(s);
    }
}

/// Whether `b` is an ASCII decimal digit.
fn is_ascii_digit(b: u8) -> (digit: bool)
    ensures
        digit == is_digit(b),
{
    b >= '0' as u8 && b <= '9' as u8
}

/// Whether `b` is ASCII whitespace.
fn is_ascii_whitespace(b: u8) -> (space: bool)
    ensures
        space == is_whitespace(b),
{
    b == 0x20 || b == 0x09 || b == 0x0a || b == 0x0c || b == 0x0d
}

/// Whether `b` is one of the operator symbols.
fn is_symbol_byte(b: u8) -> (symbol: bool)
    ensures
        symbol == KeywordType::is_symbol(b as char),
{
    b == '*' as u8 || b == '/' as u8 || b == '+' as u8 || b == '-' as u8 || b == '(' as u8 || b
        == ')' as u8
}

/// Reads the numeral that starts at `start`: where it ends, and its value unless no
/// `i64` holds it.
fn read_numeral(bytes: &[u8], start: usize) -> (read: (usize, Option<i64>))
    requires
        start <= bytes@.len(),
    ensures
        read.0 == start + digit_run(bytes@.skip(start as int)),
        match read.1 {
            Some(value) => value == decimal_value(leading_numeral(bytes@.skip(start as int))),
            None => decimal_value(leading_numeral(bytes@.skip(start as int))) > i64::MAX,
        },
{
    let ghost input = bytes@.skip(start as int);
    let mut end: usize = start;
    let mut value: Option<i64> = Some(0);
    while end < bytes.len() && is_ascii_digit(bytes[end])
        invariant
            start <= end <= bytes@.len(),
            input == bytes@.skip(start as int),
            forall|i: int| 0 <= i < end - start ==> is_digit(#[trigger] input[i]),
            match value {
                Some(v) => v == decimal_value(input.take(end - start)),
                None => decimal_value(input.take(end - start)) > i64::MAX,
            },
        decreases bytes@.len() - end,
    {
        let digit: i64 = (bytes[end] - '0' as u8) as i64;
        proof {
            let longer = input.take(end - start + 1);
            assert(longer.drop_last() =~= input.take(end - start));
        }
        value = match value {
            Some(v) => match v.checked_mul(10) {
                Some(tens) => tens.checked_add(digit),
                None => None,
            },
            None => None,
        };
        end += 1;
    }
    proof {
        lemma_digit_run_is(input, end - start);
    }
    (end, value)
}

/// Reads the numeral at `index` as a `Number` token and moves `index` past it.
fn parse_number_token(buffer: &str, index: &mut usize) -> (token: Token)
    requires
        *old(index) <= buffer.spec_bytes().len(),
        decimal_value(leading_numeral(buffer.spec_bytes().skip(*old(index) as int))) <= i64::MAX,
    ensures
        token == Token::Number(
            decimal_value(leading_numeral(buffer.spec_bytes().skip(*old(index) as int))) as i64,
        ),
        *final(index) == *old(index) + digit_run(buffer.spec_bytes().skip(*old(index) as int)),
{
    let (end, value) = read_numeral(buffer.as_bytes(), *index);
    *index = end;
    match value {
        Some(number) => Token::Number(number),
        None => vstd::pervasive::unreached(),
    }
}

/// Reads the symbol `c` as a `Keyword` token and moves `index` past it.
fn parse_keyword_token(c: char, index: &mut usize) -> (token: Token)
    requires
        KeywordType::is_symbol(c),
        *old(index) < usize::MAX,
    ensures
        token == Token::Keyword(KeywordType::of_symbol(c)),
        *final(index) == *old(index) + 1,
{
    *index += 1;
    Token::Keyword(KeywordType::from_char(c))
}

/// Whether every numeral among the tokens of `source` has a value that an `i64` holds.
/// Scanning and parsing are defined for such sources only.
pub fn numerals_representable(source: &str) -> (fit: bool)
    ensures
        fit == numerals_fit(source.spec_bytes()),
{
    let bytes: &[u8] = source.as_bytes();
    let mut index: usize = 0;
    assert(bytes@.skip(0) =~= bytes@);
    loop
        invariant
            index <= bytes@.len(),
            bytes@ == source.spec_bytes(),
            numerals_fit(bytes@) == numerals_fit(bytes@.skip(index as int)),
        decreases bytes@.len() - index,
    {
        let ghost from = bytes@.skip(index as int);
        while index < bytes.len() && is_ascii_whitespace(bytes[index])
            invariant
                index <= bytes@.len(),
                skip_whitespace(from) == skip_whitespace(bytes@.skip(index as int)),
            decreases bytes@.len() - index,
        {
            assert(bytes@.skip(index as int).drop_first() =~= bytes@.skip(index + 1));
            index += 1;
        }
        let ghost here = bytes@.skip(index as int);
        proof {
            lemma_scan_shrinks(from);
            lemma_digit_run(here);
        }
        if index >= bytes.len() {
            return true;
        }
        let b: u8 = bytes[index];
        if is_ascii_digit(b) {
            let (end, value) = read_numeral(bytes, index);
            if value.is_none() {
                return false;
            }
            assert(here.skip(digit_run(here) as int) =~= bytes@.skip(end as int));
            index = end;
        } else if is_symbol_byte(b) {
            assert(here.skip(1) =~= bytes@.skip(index + 1));
            index += 1;
        } else {
            return true;
        }
    }
}

/// A source of tokens.
pub trait Scanner {
    /// The bytes of the input that have not been scanned yet.
    spec fn remaining(&self) -> Seq<u8>;

    /// Scans the next token. Once it has returned `Eof` or an error, it returns the
    /// same ever after.
    fn next_token(&mut self) -> (token: Lexeme)
        requires
            numeral_fits(old(self).remaining()),
        ensures
            (token, final(self).remaining()) == scan(old(self).remaining()),
    ;
}

/// The bytes of the first piece of `pending`, or none where nothing is pending.
pub open spec fn first_piece(pending: Seq<Seq<char>>) -> Seq<u8> {
    if pending.len() > 0 {
        encode_utf8(pending.first())
    } else {
        Seq::empty()
    }
}

/// A scanner over the first piece of a stream of text.
#[derive(Debug)]
pub struct TinyCScanner {
    string_stream: BasicStream,
    current_buffer: Option<String>,
    cursor: usize,
}

impl TinyCScanner {
    /// The bytes that the scanner works on: those of the piece it holds, or of the
    /// piece that it is about to take from the stream.
    pub closed spec fn source(&self) -> Seq<u8> {
        match self.current_buffer {
            Some(buffer) => encode_utf8(buffer@),
            None => first_piece(self.string_stream.pending()),
        }
    }

    /// Scans one token from the piece that the scanner holds.
    fn make_next_token(&mut self) -> (token: Lexeme)
        requires
            old(self).current_buffer is Some,
            numeral_fits(old(self).remaining()),
        ensures
            (token, final(self).remaining()) == scan(old(self).remaining()),
    {
        let buffer: &str = self.current_buffer.as_ref().unwrap().as_str();
        let bytes: &[u8] = buffer.as_bytes();
        let ghost start = self.cursor as int;

        let mut token: Lexeme = Ok(Token::Eof);
        let mut index: usize = self.cursor;

        if index >= bytes.len() {
            return Ok(Token::Eof);
        }

        while index < bytes.len()
            invariant_except_break
                start <= index <= bytes@.len(),
                skip_whitespace(bytes@.skip(index as int)) == skip_whitespace(bytes@.skip(start)),
                token == Ok::<Token, CompileError>(Token::Eof),
            invariant
                bytes@ == buffer.spec_bytes(),
                numeral_fits(bytes@.skip(start)),
            ensures
                index <= bytes@.len(),
                (token, bytes@.skip(index as int)) == scan(bytes@.skip(start)),
            decreases bytes@.len() - index,
        {
            let b: u8 = bytes[index];
            let ghost here = bytes@.skip(index as int);
            if is_ascii_digit(b) {
                proof {
                    lemma_digit_run(here);
                }
                token = Ok(parse_number_token(buffer, &mut index));
                break ;
            } else if is_ascii_whitespace(b) {
                assert(here.drop_first() =~= bytes@.skip(index + 1));
                index += 1;
            } else if is_symbol_byte(b) {
                token = Ok(parse_keyword_token(b as char, &mut index));
                break ;
            } else {
                token = Err(CompileError::LexicalError);
                break ;
            }
        }

        self.cursor = index;
        token
    }

    /// A scanner that has read nothing of `string_stream` yet.
    pub fn new(string_stream: BasicStream) -> (scanner: TinyCScanner)
        ensures
            scanner.remaining() == first_piece(string_stream.pending()),
    {
        TinyCScanner { string_stream, current_buffer: None, cursor: 0 }
    }
}

impl Scanner for TinyCScanner {
    closed spec fn remaining(&self) -> Seq<u8> {
        if self.cursor <= self.source().len() {
            self.source().skip(self.cursor as int)
        } else {
            Seq::empty()
        }
    }

    fn next_token(&mut self) -> (token: Lexeme) {
        if self.current_buffer.is_none() {
            self.current_buffer = self.string_stream.next();
            if self.current_buffer.is_none() {
                return Ok(Token::Eof);
            }
        }
        self.make_next_token()
    }
}

} // verus!
