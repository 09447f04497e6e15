use parser::number::is_float_literal;
use parser::{Arranger, Keyword, Lexicalizer, Literal, Token, TokenKind, TokenStream, TokenType};

fn lexer_specials() -> Vec<String> {
    [",", "(", ")", "[", "]", "--"].iter().map(|s| s.to_string()).collect()
}

fn all_tokens(text: &str) -> Vec<Token> {
    let mut lex = Lexicalizer::new(text.to_string());
    let mut out = Vec::new();
    while let Some(t) = lex.lexicalize() {
        out.push(t);
    }
    out
}

fn name_of(t: &Token) -> Option<String> {
    match t.token_type() {
        TokenType::Name(s) => Some(s.clone()),
        _ => None,
    }
}

fn keyword_of(t: &Token) -> Option<Keyword> {
    t.as_keyword()
}

#[test]
fn arrange_splits_trailing_paren() {
    let mut a = Arranger::new(lexer_specials());
    assert_eq!(a.arrange("name("), "name");
    assert_eq!(a.pop(), Some("(".to_string()));
    assert!(a.is_empty());
}

#[test]
fn arrange_splits_trailing_comma() {
    let mut a = Arranger::new(lexer_specials());
    assert_eq!(a.arrange("x,"), "x");
    assert_eq!(a.get_stack(), vec![",".to_string()]);
    assert_eq!(a.arrange(","), ",");
}

#[test]
fn arrange_keeps_order_of_many_pieces() {
    let mut a = Arranger::new(lexer_specials());
    let mut pieces = vec![a.arrange("f(a,b)")];
    while let Some(w) = a.pop() {
        let p = a.arrange(&w);
        if !p.is_empty() {
            pieces.push(p);
        }
    }
    assert_eq!(pieces, vec!["f", "(", "a", ",", "b", ")"]);
}

#[test]
fn arrange_leading_special_gives_nothing_first() {
    let mut a = Arranger::new(lexer_specials());
    assert_eq!(a.arrange("(x"), "");
    assert_eq!(a.pop(), Some("(".to_string()));
    assert_eq!(a.pop(), Some("x".to_string()));
}

#[test]
fn arrange_lone_special_is_atomic() {
    let mut a = Arranger::new(lexer_specials());
    assert_eq!(a.arrange("--"), "--");
    assert_eq!(a.arrange("("), "(");
    assert!(a.is_empty());
}

#[test]
fn set_stack_reverses_for_popping_in_order() {
    let mut a = Arranger::new(lexer_specials());
    a.set_stack(vec!["a".to_string(), "b".to_string(), "c".to_string()]);
    assert_eq!(a.get_stack(), vec!["c".to_string(), "b".to_string(), "a".to_string()]);
    assert_eq!(a.pop(), Some("a".to_string()));
    assert_eq!(a.pop(), Some("b".to_string()));
    assert_eq!(a.pop(), Some("c".to_string()));
    assert_eq!(a.pop(), None);
}

#[test]
fn arrange_joins_quoted_words() {
    let mut a = Arranger::new(lexer_specials());
    a.set_stack(vec!["world\"".to_string(), "next".to_string()]);
    // the stack now pops "world\"" first
    assert_eq!(a.arrange("\"hello"), "\"hello world\"");
    assert_eq!(a.pop(), Some("next".to_string()));
}

#[test]
fn arrange_unclosed_quote_takes_the_rest() {
    let mut a = Arranger::new(lexer_specials());
    a.set_stack(vec!["a".to_string(), "b".to_string()]);
    assert_eq!(a.arrange("\""), "\" a b");
    assert!(a.is_empty());
}

#[test]
fn quoted_literal_is_reassembled() {
    let toks = all_tokens("x = \"hello world\"");
    assert_eq!(toks.len(), 3);
    assert_eq!(name_of(&toks[0]), Some("x".to_string()));
    assert_eq!(keyword_of(&toks[1]), Some(Keyword::Equal));
    match toks[2].token_type() {
        TokenType::Literal(Literal::String(s)) => assert_eq!(s, "hello world"),
        other => panic!("expected a string literal, got {:?}", other),
    }
}

#[test]
fn one_eos_per_line_boundary() {
    let toks = all_tokens("a b\nc\n\nd");
    let kinds: Vec<TokenKind> = toks.iter().map(|t| t.as_discriminant()).collect();
    assert_eq!(
        kinds,
        vec![
            TokenKind::Name,
            TokenKind::Name,
            TokenKind::EOS,
            TokenKind::Name,
            TokenKind::EOS,
            TokenKind::EOS,
            TokenKind::Name,
        ]
    );
    assert_eq!(toks[2].line(), 1);
    assert_eq!(toks[3].line(), 1);
    assert_eq!(toks[6].line(), 3);
}

#[test]
fn comment_discards_rest_of_line() {
    let toks = all_tokens("a -- b c\nd");
    assert_eq!(toks.len(), 3);
    assert_eq!(name_of(&toks[0]), Some("a".to_string()));
    assert!(toks[1].is_eos());
    assert_eq!(name_of(&toks[2]), Some("d".to_string()));
}

#[test]
fn comment_glued_to_word() {
    let toks = all_tokens("x--note y\nz");
    assert_eq!(toks.len(), 3);
    assert_eq!(name_of(&toks[0]), Some("x".to_string()));
    assert!(toks[1].is_eos());
    assert_eq!(name_of(&toks[2]), Some("z".to_string()));
}

#[test]
fn function_call_words_are_split() {
    let toks = all_tokens("print(a, b)");
    assert_eq!(toks.len(), 6);
    assert_eq!(name_of(&toks[0]), Some("print".to_string()));
    assert_eq!(keyword_of(&toks[1]), Some(Keyword::LeftParen));
    assert_eq!(name_of(&toks[2]), Some("a".to_string()));
    assert_eq!(keyword_of(&toks[3]), Some(Keyword::Comma));
    assert_eq!(name_of(&toks[4]), Some("b".to_string()));
    assert_eq!(keyword_of(&toks[5]), Some(Keyword::RightParen));
}

#[test]
fn empty_text_has_no_tokens() {
    assert!(all_tokens("").is_empty());
}

#[test]
fn token_positions_count_tokens() {
    let toks = all_tokens("a b\nc");
    let cols: Vec<usize> = toks.iter().map(|t| t.column()).collect();
    assert_eq!(cols, vec![0, 1, 2, 3]);
    let lines: Vec<usize> = toks.iter().map(|t| t.line()).collect();
    assert_eq!(lines, vec![0, 0, 1, 1]);
}

#[test]
fn classify_keywords_literals_names() {
    let t = Token::from_str("function", 0, 0);
    assert_eq!(t.as_keyword(), Some(Keyword::Function));
    let t = Token::from_str("true", 0, 0);
    assert!(matches!(t.token_type(), TokenType::Literal(Literal::Boolean(true))));
    let t = Token::from_str("false", 0, 0);
    assert!(matches!(t.token_type(), TokenType::Literal(Literal::Boolean(false))));
    let t = Token::from_str("nil", 0, 0);
    assert!(matches!(t.token_type(), TokenType::Literal(Literal::Nil)));
    let t = Token::from_str("12345", 0, 0);
    match t.token_type() {
        TokenType::Literal(Literal::Number(s)) => {
            assert_eq!(s, "12345");
            assert_eq!(s.parse::<f64>().unwrap(), 12345.0);
        }
        other => panic!("expected a number, got {:?}", other),
    }
    let t = Token::from_str("123.45", 0, 0);
    match t.token_type() {
        TokenType::Literal(Literal::Number(s)) => assert_eq!(s.parse::<f64>().unwrap(), 123.45),
        other => panic!("expected a number, got {:?}", other),
    }
    let t = Token::from_str("\"\"", 0, 0);
    assert_eq!(name_of(&t), Some("\"\"".to_string()));
    let t = Token::from_str("my_variable123", 3, 4);
    assert_eq!(name_of(&t), Some("my_variable123".to_string()));
    assert_eq!((t.line(), t.column()), (3, 4));
    let t = Token::from_str("-", 0, 0);
    assert_eq!(t.as_keyword(), Some(Keyword::Minus));
}

#[test]
fn float_grammar_matches_std() {
    let samples = [
        "0", "12", "1.", ".5", "1.5", "1e5", "1E-5", "+3", "-2.5e+10", "inf", "-INF", "Infinity",
        "NaN", "nan", ".", "e5", "1e", "1e+", "1..2", "1.2.3", "abc", "", "+", "--1", "1_000",
        "0x10", "infinit", "1 ", " 1", "١",
    ];
    for s in samples {
        let chars: Vec<char> = s.chars().collect();
        assert_eq!(is_float_literal(&chars), s.parse::<f64>().is_ok(), "sample {:?}", s);
    }
}

#[test]
fn discriminant_names() {
    assert_eq!(Token::from_discriminant(&Token::keyword_discr()), "Keyword");
    assert_eq!(Token::from_discriminant(&Token::name_discr()), "Name");
    assert_eq!(Token::from_discriminant(&Token::literal_discr()), "Literal");
    assert_eq!(Token::from_discriminant(&Token::eos_discr()), "EOS");
    assert_eq!(Keyword::from_discriminant(&Keyword::Comma), Keyword::Comma);
    assert_eq!(Token::eos(2, 5).as_discriminant(), TokenKind::EOS);
}

#[test]
fn stream_lookahead_and_ignore_eos() {
    let mut s = TokenStream::new(Lexicalizer::new("\n\na".to_string()));
    let first = s.current().unwrap();
    assert!(first.is_eos());
    assert!(s.current().unwrap().is_eos());
    assert!(s.ignore_eos(first).is_ok());
    let t = s.current().unwrap();
    assert_eq!(name_of(&t), Some("a".to_string()));
    s.advance();
    assert!(s.current().is_none());
}

#[test]
fn ignore_eos_fails_at_end() {
    let mut s = TokenStream::new(Lexicalizer::new("a\n\n".to_string()));
    let a = s.current().unwrap();
    assert!(s.ignore_eos(a).is_ok());
    s.advance();
    let eos = s.current().unwrap();
    assert!(eos.is_eos());
    assert!(s.ignore_eos(eos).is_err());
}
