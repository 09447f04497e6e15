//! Tokens: the closed classification of atomic source text.
use vstd::prelude::*;

use crate::number::{is_float_literal, is_float_text};
use crate::text::{chars_of, spells, string_of};

verus! {

/// The reserved words and punctuation of the language.
#[derive(Debug, Clone, Copy, PartialEq, Eq, Structural)]
pub enum Keyword {
    Equal,
    Require,
    Execute,
    LeftParen,
    RightParen,
    LeftCurly,
    RightCurly,
    LeftBracket,
    RightBracket,
    Comma,
    End,
    Do,
    Then,
    /// Marks a script of the modding dialect.
    Pdx,
    Function,
    If,
    Else,
    While,
    For,
    Return,
    Plus,
    Minus,
    Multiply,
    Divide,
}

/// The keyword spelled by `s`, if any.
pub open spec fn keyword_of(s: Seq<char>) -> Option<Keyword> {
    if s == seq!['='] {
        Some(Keyword::Equal)
    } else if s == seq!['r', 'e', 'q', 'u', 'i', 'r', 'e'] {
        Some(Keyword::Require)
    } else if s == seq!['e', 'x', 'e', 'c', 'u', 't', 'e'] {
        Some(Keyword::Execute)
    } else if s == seq!['d', 'o'] {
        Some(Keyword::Do)
    } else if s == seq!['t', 'h', 'e', 'n'] {
        Some(Keyword::Then)
    } else if s == seq!['p', 'd', 'x'] {
        Some(Keyword::Pdx)
    } else if s == seq!['e', 'n', 'd'] {
        Some(Keyword::End)
    } else if s == seq!['f', 'u', 'n', 'c', 't', 'i', 'o', 'n'] {
        Some(Keyword::Function)
    } else if s == seq![','] {
        Some(Keyword::Comma)
    } else if s == seq!['+'] {
        Some(Keyword::Plus)
    } else if s == seq!['-'] {
        Some(Keyword::Minus)
    } else if s == seq!['*'] {
        Some(Keyword::Multiply)
    } else if s == seq!['/'] {
        Some(Keyword::Divide)
    } else if s == seq!['('] {
        Some(Keyword::LeftParen)
    } else if s == seq![')'] {
        Some(Keyword::RightParen)
    } else if s == seq!['{'] {
        Some(Keyword::LeftCurly)
    } else if s == seq!['}'] {
        Some(Keyword::RightCurly)
    } else if s == seq!['['] {
        Some(Keyword::LeftBracket)
    } else if s == seq![']'] {
        Some(Keyword::RightBracket)
    } else if s == seq!['i', 'f'] {
        Some(Keyword::If)
    } else if s == seq!['e', 'l', 's', 'e'] {
        Some(Keyword::Else)
    } else if s == seq!['w', 'h', 'i', 'l', 'e'] {
        Some(Keyword::While)
    } else if s == seq!['f', 'o', 'r'] {
        Some(Keyword::For)
    } else if s == seq!['r', 'e', 't', 'u', 'r', 'n'] {
        Some(Keyword::Return)
    } else {
        None
    }
}

impl Keyword {
    /// The keyword of the given kind. A keyword carries no payload, so its
    /// kind is the keyword itself.
    pub fn from_discriminant(discr: &Keyword) -> (r: Keyword)
        ensures
            r == *discr,
    {
        *discr
    }

    /// The keyword spelled by `s`, if any.
    pub fn from_str(s: &str) -> (r: Option<Keyword>)
        ensures
            r == keyword_of(s@),
    {
        let v = chars_of(s);
        Keyword::from_chars(v.as_slice())
    }

    /// The keyword spelled by `s`, if any.
    pub fn from_chars(s: &[char]) -> (r: Option<Keyword>)
        ensures
            r == keyword_of(s@),
    {
        proof {
            reveal_strlit("=");
            assert("="@ =~= seq!['=']);
        }
        if spells(s, "=") {
            return Some(Keyword::Equal);
        }
        proof {
            reveal_strlit("require");
            assert("require"@ =~= seq!['r', 'e', 'q', 'u', 'i', 'r', 'e']);
        }
        if spells(s, "require") {
            return Some(Keyword::Require);
        }
        proof {
            reveal_strlit("execute");
            assert("execute"@ =~= seq!['e', 'x', 'e', 'c', 'u', 't', 'e']);
        }
        if spells(s, "execute") {
            return Some(Keyword::Execute);
        }
        proof {
            reveal_strlit("do");
            assert("do"@ =~= seq!['d', 'o']);
        }
        if spells(s, "do") {
            return Some(Keyword::Do);
        }
        proof {
            reveal_strlit("then");
            assert("then"@ =~= seq!['t', 'h', 'e', 'n']);
        }
        if spells(s, "then") {
            return Some(Keyword::Then);
        }
        proof {
            reveal_strlit("pdx");
            assert("pdx"@ =~= seq!['p', 'd', 'x']);
        }
        if spells(s, "pdx") {
            return Some(Keyword::Pdx);
        }
        proof {
            reveal_strlit("end");
            assert("end"@ =~= seq!['e', 'n', 'd']);
        }
        if spells(s, "end") {
            return Some(Keyword::End);
        }
        proof {
            reveal_strlit("function");
            assert("function"@ =~= seq!['f', 'u', 'n', 'c', 't', 'i', 'o', 'n']);
        }
        if spells(s, "function") {
            return Some(Keyword::Function);
        }
        proof {
            reveal_strlit(",");
            assert(","@ =~= seq![',']);
        }
        if spells(s, ",") {
            return Some(Keyword::Comma);
        }
        proof {
            reveal_strlit("+");
            assert("+"@ =~= seq!['+']);
        }
        if spells(s, "+") {
            return Some(Keyword::Plus);
        }
        proof {
            reveal_strlit("-");
            assert("-"@ =~= seq!['-']);
        }
        if spells(s, "-") {
            return Some(Keyword::Minus);
        }
        proof {
            reveal_strlit("*");
            assert("*"@ =~= seq!['*']);
        }
        if spells(s, "*") {
            return Some(Keyword::Multiply);
        }
        proof {
            reveal_strlit("/");
            assert("/"@ =~= seq!['/']);
        }
        if spells(s, "/") {
            return Some(Keyword::Divide);
        }
        proof {
            reveal_strlit("(");
            assert("("@ =~= seq!['(']);
        }
        if spells(s, "(") {
            return Some(Keyword::LeftParen);
        }
        proof {
            reveal_strlit(")");
            assert(")"@ =~= seq![')']);
        }
        if spells(s, ")") {
            return Some(Keyword::RightParen);
        }
        proof {
            reveal_strlit("{");
            assert("{"@ =~= seq!['{']);
        }
        if spells(s, "{") {
            return Some(Keyword::LeftCurly);
        }
        proof {
            reveal_strlit("}");
            assert("}"@ =~= seq!['}']);
        }
        if spells(s, "}") {
            return Some(Keyword::RightCurly);
        }
        proof {
            reveal_strlit("[");
            assert("["@ =~= seq!['[']);
        }
        if spells(s, "[") {
            return Some(Keyword::LeftBracket);
        }
        proof {
            reveal_strlit("]");
            assert("]"@ =~= seq![']']);
        }
        if spells(s, "]") {
            return Some(Keyword::RightBracket);
        }
        proof {
            reveal_strlit("if");
            assert("if"@ =~= seq!['i', 'f']);
        }
        if spells(s, "if") {
            return Some(Keyword::If);
        }
        proof {
            reveal_strlit("else");
            assert("else"@ =~= seq!['e', 'l', 's', 'e']);
        }
        if spells(s, "else") {
            return Some(Keyword::Else);
        }
        proof {
            reveal_strlit("while");
            assert("while"@ =~= seq!['w', 'h', 'i', 'l', 'e']);
        }
        if spells(s, "while") {
            return Some(Keyword::While);
        }
        proof {
            reveal_strlit("for");
            assert("for"@ =~= seq!['f', 'o', 'r']);
        }
        if spells(s, "for") {
            return Some(Keyword::For);
        }
        proof {
            reveal_strlit("return");
            assert("return"@ =~= seq!['r', 'e', 't', 'u', 'r', 'n']);
        }
        if spells(s, "return") {
            return Some(Keyword::Return);
        }
        None
    }
}

/// A literal value. A number keeps the text it was written with, which
/// `f64`'s `FromStr` accepts.
#[derive(Debug)]
pub enum Literal {
    String(String),
    Number(String),
    Boolean(bool),
    Nil,
}

/// What a literal holds, as character sequences.
pub enum LiteralView {
    Text(Seq<char>),
    Number(Seq<char>),
    Boolean(bool),
    Nil,
}

impl View for Literal {
    type V = LiteralView;

    open spec fn view(&self) -> LiteralView {
        match self {
            Literal::String(s) => LiteralView::Text(s@),
            Literal::Number(s) => LiteralView::Number(s@),
            Literal::Boolean(b) => LiteralView::Boolean(*b),
            Literal::Nil => LiteralView::Nil,
        }
    }
}

impl Clone for Literal {
    fn clone(&self) -> (r: Self)
        ensures
            r == *self,
    {
        match self {
            Literal::String(s) => Literal::String(s.clone()),
            Literal::Number(s) => Literal::Number(s.clone()),
            Literal::Boolean(b) => Literal::Boolean(*b),
            Literal::Nil => Literal::Nil,
        }
    }
}

/// A quoted string with at least one character between its quotes.
pub open spec fn is_quoted(s: Seq<char>) -> bool {
    s.len() > 2 && s[0] == '"' && s[s.len() - 1] == '"'
}

/// The literal written as `s`, if any. Quotes around nothing (`""`), or a
/// lone quote, are no literal.
pub open spec fn literal_of(s: Seq<char>) -> Option<LiteralView> {
    if s.len() > 0 && s[0] == '"' && s[s.len() - 1] == '"' {
        if s.len() <= 2 {
            None
        } else {
            Some(LiteralView::Text(s.subrange(1, s.len() - 1)))
        }
    } else if s == seq!['t', 'r', 'u', 'e'] {
        Some(LiteralView::Boolean(true))
    } else if s == seq!['f', 'a', 'l', 's', 'e'] {
        Some(LiteralView::Boolean(false))
    } else if s == seq!['n', 'i', 'l'] {
        Some(LiteralView::Nil)
    } else if is_float_text(s) {
        Some(LiteralView::Number(s))
    } else {
        None
    }
}

impl Literal {
    /// The literal written as `s`, if any.
    pub fn from_str(s: &str) -> (r: Option<Literal>)
        ensures
            literal_of(s@) == (match r {
                Some(l) => Some(l@),
                None => None,
            }),
    {
        let v = chars_of(s);
        Literal::from_chars(v.as_slice())
    }

    /// The literal written as `s`, if any.
    pub fn from_chars(s: &[char]) -> (r: Option<Literal>)
        ensures
            literal_of(s@) == (match r {
                Some(l) => Some(l@),
                None => None,
            }),
    {
        let n = s.len();
        if n > 0 && s[0] == '"' && s[n - 1] == '"' {
            if n <= 2 {
                return None;
            }
            let inner = vstd::slice::slice_to_vec(vstd::slice::slice_subrange(s, 1, n - 1));
            return Some(Literal::String(string_of(&inner)));
        }
        proof {
            reveal_strlit("true");
            reveal_strlit("false");
            reveal_strlit("nil");
            assert("true"@ =~= seq!['t', 'r', 'u', 'e']);
            assert("false"@ =~= seq!['f', 'a', 'l', 's', 'e']);
            assert("nil"@ =~= seq!['n', 'i', 'l']);
        }
        if spells(s, "true") {
            Some(Literal::Boolean(true))
        } else if spells(s, "false") {
            Some(Literal::Boolean(false))
        } else if spells(s, "nil") {
            Some(Literal::Nil)
        } else if is_float_literal(s) {
            let v = vstd::slice::slice_to_vec(s);
            Some(Literal::Number(string_of(&v)))
        } else {
            None
        }
    }
}

/// The four kinds of token, without their payloads.
#[derive(Debug, Clone, Copy, PartialEq, Eq, Structural)]
pub enum TokenKind {
    Keyword,
    Name,
    Literal,
    EOS,
}

/// What a token is: a keyword, a name, a literal, or the end of a line.
#[derive(Debug)]
pub enum TokenType {
    Keyword(Keyword),
    Name(String),
    Literal(Literal),
    EOS,
}

/// What a token holds, as character sequences.
pub enum TokenTypeView {
    Keyword(Keyword),
    Name(Seq<char>),
    Literal(LiteralView),
    EndOfStatement,
}

impl View for TokenType {
    type V = TokenTypeView;

    open spec fn view(&self) -> TokenTypeView {
        match self {
            TokenType::Keyword(k) => TokenTypeView::Keyword(*k),
            TokenType::Name(s) => TokenTypeView::Name(s@),
            TokenType::Literal(l) => TokenTypeView::Literal(l@),
            TokenType::EOS => TokenTypeView::EndOfStatement,
        }
    }
}

impl Clone for TokenType {
    fn clone(&self) -> (r: Self)
        ensures
            r == *self,
    {
        match self {
            TokenType::Keyword(k) => TokenType::Keyword(*k),
            TokenType::Name(s) => TokenType::Name(s.clone()),
            TokenType::Literal(l) => TokenType::Literal(l.clone()),
            TokenType::EOS => TokenType::EOS,
        }
    }
}

/// The kind of a token's contents.
pub open spec fn kind_of(t: TokenTypeView) -> TokenKind {
    match t {
        TokenTypeView::Keyword(_) => TokenKind::Keyword,
        TokenTypeView::Name(_) => TokenKind::Name,
        TokenTypeView::Literal(_) => TokenKind::Literal,
        TokenTypeView::EndOfStatement => TokenKind::EOS,
    }
}

/// How atomic text is classified: a keyword first, then a literal, and
/// otherwise a name.
pub open spec fn classify(s: Seq<char>) -> TokenTypeView {
    match keyword_of(s) {
        Some(k) => TokenTypeView::Keyword(k),
        None => match literal_of(s) {
            Some(l) => TokenTypeView::Literal(l),
            None => TokenTypeView::Name(s),
        },
    }
}

/// A token and the place in the source where it was found.
#[derive(Debug)]
pub struct Token {
    line: usize,
    column: usize,
    ttype: TokenType,
}

/// A token as plain values: its line, its column and what it holds.
pub struct TokenView {
    pub line: nat,
    pub column: nat,
    pub kind: TokenTypeView,
}

impl View for Token {
    type V = TokenView;

    closed spec fn view(&self) -> TokenView {
        TokenView { line: self.line as nat, column: self.column as nat, kind: self.ttype@ }
    }
}

impl Clone for Token {
    fn clone(&self) -> (r: Self)
        ensures
            r == *self,
    {
        Token { line: self.line, column: self.column, ttype: self.ttype.clone() }
    }
}

/// The printed name of a token kind.
pub open spec fn kind_name(k: TokenKind) -> Seq<char> {
    match k {
        TokenKind::Keyword => seq!['K', 'e', 'y', 'w', 'o', 'r', 'd'],
        TokenKind::Name => seq!['N', 'a', 'm', 'e'],
        TokenKind::Literal => seq!['L', 'i', 't', 'e', 'r', 'a', 'l'],
        TokenKind::EOS => seq!['E', 'O', 'S'],
    }
}

impl Token {
    /// Classifies the atomic text `s` found at `line`, `char`.
    pub fn from_str(s: &str, line: usize, char: usize) -> (r: Token)
        ensures
            r@ == (TokenView { line: line as nat, column: char as nat, kind: classify(s@) }),
    {
        let v = chars_of(s);
        Token::from_chars(v.as_slice(), line, char)
    }

    /// Classifies the atomic text `s` found at `line`, `column`.
    pub fn from_chars(s: &[char], line: usize, column: usize) -> (r: Token)
        ensures
            r@ == (TokenView { line: line as nat, column: column as nat, kind: classify(s@) }),
    {
        let ttype = match Keyword::from_chars(s) {
            Some(k) => TokenType::Keyword(k),
            None => match Literal::from_chars(s) {
                Some(l) => TokenType::Literal(l),
                None => {
                    let v = vstd::slice::slice_to_vec(s);
                    TokenType::Name(string_of(&v))
                },
            },
        };
        Token { line, column, ttype }
    }

    /// An end-of-statement token at `line`, `char`.
    pub fn eos(line: usize, char: usize) -> (r: Token)
        ensures
            r@ == (TokenView {
                line: line as nat,
                column: char as nat,
                kind: TokenTypeView::EndOfStatement,
            }),
    {
        Token { line, column: char, ttype: TokenType::EOS }
    }

    pub fn line(&self) -> (r: usize)
        ensures
            r == self@.line,
    {
        self.line
    }

    pub fn column(&self) -> (r: usize)
        ensures
            r == self@.column,
    {
        self.column
    }

    pub fn token_type(&self) -> (r: &TokenType)
        ensures
            r@ == self@.kind,
    {
        &self.ttype
    }

    /// The kind of this token, without its payload.
    pub fn as_discriminant(&self) -> (r: TokenKind)
        ensures
            r == kind_of(self@.kind),
    {
        match &self.ttype {
            TokenType::Keyword(_) => TokenKind::Keyword,
            TokenType::Name(_) => TokenKind::Name,
            TokenType::Literal(_) => TokenKind::Literal,
            TokenType::EOS => TokenKind::EOS,
        }
    }

    pub fn keyword_discr() -> (r: TokenKind)
        ensures
            r == TokenKind::Keyword,
    {
        TokenKind::Keyword
    }

    pub fn name_discr() -> (r: TokenKind)
        ensures
            r == TokenKind::Name,
    {
        TokenKind::Name
    }

    pub fn literal_discr() -> (r: TokenKind)
        ensures
            r == TokenKind::Literal,
    {
        TokenKind::Literal
    }

    pub fn eos_discr() -> (r: TokenKind)
        ensures
            r == TokenKind::EOS,
    {
        TokenKind::EOS
    }

    /// The printed name of a token kind.
    pub fn from_discriminant(discr: &TokenKind) -> (r: String)
        ensures
            r@ == kind_name(*discr),
    {
        proof {
            reveal_strlit("Keyword");
            reveal_strlit("Name");
            reveal_strlit("Literal");
            reveal_strlit("EOS");
        }
        match discr {
            TokenKind::Keyword => {
                assert("Keyword"@ =~= seq!['K', 'e', 'y', 'w', 'o', 'r', 'd']);
                "Keyword".to_string()
            },
            TokenKind::Name => {
                assert("Name"@ =~= seq!['N', 'a', 'm', 'e']);
                "Name".to_string()
            },
            TokenKind::Literal => {
                assert("Literal"@ =~= seq!['L', 'i', 't', 'e', 'r', 'a', 'l']);
                "Literal".to_string()
            },
            TokenKind::EOS => {
                assert("EOS"@ =~= seq!['E', 'O', 'S']);
                "EOS".to_string()
            },
        }
    }

    /// The keyword this token holds, if it holds one.
    pub fn as_keyword(&self) -> (r: Option<Keyword>)
        ensures
            r == (match self@.kind {
                TokenTypeView::Keyword(k) => Some(k),
                _ => None,
            }),
    {
        match &self.ttype {
            TokenType::Keyword(k) => Some(*k),
            _ => None,
        }
    }

    pub fn is_name(&self) -> (r: bool)
        ensures
            r == self@.kind is Name,
    {
        matches!(self.ttype, TokenType::Name(_))
    }

    pub fn is_literal(&self) -> (r: bool)
        ensures
            r == self@.kind is Literal,
    {
        matches!(self.ttype, TokenType::Literal(_))
    }

    pub fn is_eos(&self) -> (r: bool)
        ensures
            r == self@.kind is EndOfStatement,
    {
        matches!(self.ttype, TokenType::EOS)
    }
}

} // verus!
