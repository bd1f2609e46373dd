//! A translator from arithmetic expressions to the assembly text of a stack machine.
//!
//! The source text is scanned into tokens ([`scanner`]), the tokens are parsed into a
//! tree by recursive descent ([`parser`], after the grammar in [`grammar`]), and the
//! tree is turned into instructions ([`codegen`]); [`compiler`] puts the three together.
//!
//! What the parts do is stated over sequences of bytes, tokens and instructions, and
//! proved of the code. On top of that stand the theorems that say why the result is
//! right: the parser reads exactly the sentences of the grammar ([`syntax`]), the
//! scanner reads back what is written ([`notation`]), and the generated program
//! computes the value of the expression on a model of the machine ([`machine`]).

pub mod ast;
pub mod codegen;
pub mod compiler;
pub mod decimal;
pub mod error;
pub mod grammar;
pub mod machine;
pub mod notation;
pub mod parser;
pub mod scanner;
pub mod stream;
pub mod string_stream;
pub mod syntax;
