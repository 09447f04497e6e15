use parser::{
    Grammar, GrammarError, Keyword, Lexicalizer, RuleBuilder, Statement, StatementBuilder,
    SyntaxError, SyntaxParser, Token, TokenStream, TokenType,
};

fn text_of(t: &Token) -> String {
    match t.token_type() {
        TokenType::Name(s) => s.clone(),
        other => panic!("expected a name, got {:?}", other),
    }
}

fn texts(st: &Statement, field: &str) -> Vec<String> {
    st.get(field).iter().map(text_of).collect()
}

fn call_and_herring() -> Grammar {
    let mut grammar = Grammar::new();
    grammar
        .add_rule(
            RuleBuilder::new("FUNCTION_CALL")
                .add_name("fn")
                .add_keyword("(", Keyword::LeftParen)
                .add_repeat(
                    "args",
                    RuleBuilder::new("args").add_get("arg").add_keyword(",", Keyword::Comma),
                )
                .add_keyword(")", Keyword::RightParen),
        )
        .unwrap();
    grammar
        .add_rule(
            RuleBuilder::new("RED_HERRING")
                .add_name("fn")
                .add_keyword("[", Keyword::LeftBracket),
        )
        .unwrap();
    grammar
}

fn build_one(grammar: Grammar, text: &str) -> (Result<Statement, SyntaxError>, TokenStream) {
    let mut stream = TokenStream::new(Lexicalizer::new(text.to_string()));
    let first = stream.current().unwrap();
    let mut builder = StatementBuilder::new(grammar);
    let r = builder.build(&mut stream, first);
    (r, stream)
}

#[test]
fn function_call_selected_and_bound() {
    let (r, mut stream) = build_one(call_and_herring(), "foo ( a , b )");
    let st = r.unwrap();
    assert_eq!(st.rule_name(), "FUNCTION_CALL");
    assert_eq!(texts(&st, "fn"), vec!["foo"]);
    assert_eq!(texts(&st, "arg"), vec!["a", "b"]);
    assert!(st.get("args").is_empty());
    assert!(stream.current().is_none());
}

#[test]
fn function_call_glued_words() {
    let (r, _) = build_one(call_and_herring(), "foo(a, b)");
    let st = r.unwrap();
    assert_eq!(st.rule_name(), "FUNCTION_CALL");
    assert_eq!(texts(&st, "fn"), vec!["foo"]);
    assert_eq!(texts(&st, "arg"), vec!["a", "b"]);
}

#[test]
fn red_herring_selected_without_error() {
    let (r, mut stream) = build_one(call_and_herring(), "foo [");
    let st = r.unwrap();
    assert_eq!(st.rule_name(), "RED_HERRING");
    assert_eq!(texts(&st, "fn"), vec!["foo"]);
    assert_eq!(st.bindings().len(), 1);
    assert!(stream.current().is_none());
}

#[test]
fn disambiguation_reads_only_the_signature() {
    // The rules diverge at position 1: two tokens decide, and the statement
    // of the short rule ends right there.
    let (r, mut stream) = build_one(call_and_herring(), "foo [ bar baz");
    assert_eq!(r.unwrap().rule_name(), "RED_HERRING");
    assert_eq!(text_of(&stream.current().unwrap()), "bar");
}

#[test]
fn divergence_at_later_position() {
    let mut grammar = Grammar::new();
    grammar
        .add_rule(
            RuleBuilder::new("ASSIGN")
                .add_name("target")
                .add_keyword("=", Keyword::Equal)
                .add_name("value")
                .add_keyword("end", Keyword::End),
        )
        .unwrap();
    grammar
        .add_rule(
            RuleBuilder::new("CALL_ASSIGN")
                .add_name("target")
                .add_keyword("=", Keyword::Equal)
                .add_name("callee")
                .add_keyword("(", Keyword::LeftParen)
                .add_keyword(")", Keyword::RightParen),
        )
        .unwrap();
    let (r, mut stream) = build_one(grammar, "x = f ( ) y");
    let st = r.unwrap();
    assert_eq!(st.rule_name(), "CALL_ASSIGN");
    assert_eq!(texts(&st, "target"), vec!["x"]);
    assert_eq!(texts(&st, "callee"), vec!["f"]);
    assert_eq!(text_of(&stream.current().unwrap()), "y");
}

#[test]
fn no_rule_fits_gives_unexpected_token() {
    let (r, _) = build_one(call_and_herring(), "foo ]");
    match r {
        Err(SyntaxError::UnexpectedToken(t)) => assert_eq!(t.as_keyword(), Some(Keyword::RightBracket)),
        other => panic!("expected an unexpected token, got {:?}", other.is_ok()),
    }
}

#[test]
fn tokens_run_out_while_choosing() {
    let (r, _) = build_one(call_and_herring(), "foo");
    assert!(matches!(r, Err(SyntaxError::UnexpectedEnd)));
}

#[test]
fn tokens_run_out_inside_rule() {
    let (r, _) = build_one(call_and_herring(), "foo ( a ,");
    assert!(matches!(r, Err(SyntaxError::UnexpectedEnd)));
}

#[test]
fn overlapping_signatures_are_refused() {
    let mut grammar = Grammar::new();
    grammar
        .add_rule(RuleBuilder::new("A").add_name("x").add_get("y"))
        .unwrap();
    let r = grammar.add_rule(RuleBuilder::new("B").add_name("x").add_keyword("=", Keyword::Equal));
    assert_eq!(r, Err(GrammarError::OverlappingSignature));
    let r = grammar.add_rule(RuleBuilder::new("C").add_keyword("(", Keyword::LeftParen));
    assert_eq!(r, Ok(()));
}

#[test]
fn identical_rules_are_refused() {
    let mut grammar = Grammar::new();
    grammar.add_rule(RuleBuilder::new("A").add_name("x")).unwrap();
    let r = grammar.add_rule(RuleBuilder::new("B").add_name("y"));
    assert_eq!(r, Err(GrammarError::OverlappingSignature));
}

#[test]
fn single_rule_needs_no_disambiguation() {
    let mut grammar = Grammar::new();
    grammar
        .add_rule(
            RuleBuilder::new("LIST")
                .add_keyword("{", Keyword::LeftCurly)
                .add_repeat("items", RuleBuilder::new("items").add_get("item"))
                .add_keyword("}", Keyword::RightCurly),
        )
        .unwrap();
    let (r, _) = build_one(grammar, "{ 1 2 \"three\" }");
    let st = r.unwrap();
    assert_eq!(st.rule_name(), "LIST");
    assert_eq!(st.get("item").len(), 3);
}

#[test]
fn alternatives_accept_either() {
    let mut grammar = Grammar::new();
    grammar
        .add_rule(
            RuleBuilder::new("SIGN")
                .add_name("x")
                .add_or(
                    "op",
                    RuleBuilder::new("op")
                        .add_keyword("+", Keyword::Plus)
                        .add_keyword("-", Keyword::Minus),
                )
                .add_name("y"),
        )
        .unwrap();
    let (r, _) = build_one(grammar, "a - b");
    let st = r.unwrap();
    assert_eq!(texts(&st, "x"), vec!["a"]);
    assert_eq!(texts(&st, "y"), vec!["b"]);
}

#[test]
fn parser_reads_statements_line_by_line() {
    let tokens = TokenStream::new(Lexicalizer::new("foo [\n\nbar ( x )\nbaz [".to_string()));
    let mut parser = SyntaxParser::new(tokens, call_and_herring());
    let tree = parser.parse().unwrap();
    let names: Vec<String> = tree.statements().iter().map(|s| s.rule_name().clone()).collect();
    assert_eq!(names, vec!["RED_HERRING", "FUNCTION_CALL", "RED_HERRING"]);
    assert_eq!(texts(&tree.statements()[1], "arg"), vec!["x"]);
}

#[test]
fn parser_fails_on_trailing_blank_line() {
    let tokens = TokenStream::new(Lexicalizer::new("foo [\n\n".to_string()));
    let mut parser = SyntaxParser::new(tokens, call_and_herring());
    assert!(matches!(parser.parse(), Err(SyntaxError::UnexpectedEnd)));
}

#[test]
fn parser_refuses_statement_without_tokens() {
    let mut grammar = Grammar::new();
    grammar
        .add_rule(RuleBuilder::new("R").add_repeat("r", RuleBuilder::new("r").add_name("n")))
        .unwrap();
    let tokens = TokenStream::new(Lexicalizer::new("(".to_string()));
    let mut parser = SyntaxParser::new(tokens, grammar);
    match parser.parse() {
        Err(SyntaxError::UnexpectedToken(t)) => assert_eq!(t.as_keyword(), Some(Keyword::LeftParen)),
        other => panic!("expected an unexpected token, got {:?}", other.is_ok()),
    }
}
