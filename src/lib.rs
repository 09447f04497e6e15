//! Front end of a small modding-script language: a tokenizer that splits
//! source text into tokens, and a declarative grammar engine that picks one
//! rule among many by looking at fixed prefixes, then drives it to a
//! completed statement.
use vstd::prelude::*;

pub mod arranger;
pub mod grammar;
pub mod lexer;
pub mod number;
pub mod text;
pub mod token;

pub use arranger::Arranger;
pub use grammar::{
    Binding, CommandType, Grammar, GrammarError, RuleBuilder, Statement, StatementBuilder,
    SyntaxError, SyntaxParser, SyntaxTree,
};
pub use lexer::{Lexicalizer, TokenStream};
pub use token::{Keyword, Literal, Token, TokenKind, TokenType};

verus! {

} // verus!
