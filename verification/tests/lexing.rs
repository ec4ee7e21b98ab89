use rlox::lexing::{LexingErrorKind, LiteralValue, Loc, Scanner, Token, TokenKind};

fn scan_ok(source: &str) -> Vec<Token> {
    Scanner::new(String::from(source))
        .scan()
        .expect("scanning should succeed")
}

fn kinds(tokens: &[Token]) -> Vec<TokenKind> {
    tokens.iter().map(|t| t.kind).collect()
}

#[test]
fn scan_empty_source_gives_only_eof() {
    let tokens = scan_ok("");
    assert_eq!(kinds(&tokens), vec![TokenKind::Eof]);
    assert_eq!(tokens[0].loc.line_begin, 1);
}

#[test]
fn scan_simple_expression() {
    let tokens = scan_ok("1 + 2 * 3;");
    assert_eq!(
        kinds(&tokens),
        vec![
            TokenKind::Number,
            TokenKind::Plus,
            TokenKind::Number,
            TokenKind::Star,
            TokenKind::Number,
            TokenKind::Semicolon,
            TokenKind::Eof,
        ]
    );
}

#[test]
fn scan_number_literal_matches_native_parse() {
    let tokens = scan_ok("2.5;");
    assert_eq!(tokens[0].lexeme, "2.5");
    match &tokens[0].literal {
        Some(LiteralValue::Number(bits)) => assert_eq!(*bits, 2.5f64.to_bits()),
        other => panic!("expected a number literal, got {:?}", other),
    }
}

#[test]
fn scan_number_with_leading_point() {
    let tokens = scan_ok(".5;");
    assert_eq!(tokens[0].kind, TokenKind::Number);
    assert_eq!(tokens[0].lexeme, ".5");
    match &tokens[0].literal {
        Some(LiteralValue::Number(bits)) => assert_eq!(*bits, 0.5f64.to_bits()),
        other => panic!("expected a number literal, got {:?}", other),
    }
}

#[test]
fn scan_number_with_trailing_point() {
    let tokens = scan_ok("7.;");
    assert_eq!(tokens[0].kind, TokenKind::Number);
    assert_eq!(tokens[0].lexeme, "7.");
    match &tokens[0].literal {
        Some(LiteralValue::Number(bits)) => assert_eq!(*bits, 7.0f64.to_bits()),
        other => panic!("expected a number literal, got {:?}", other),
    }
}

#[test]
fn scan_second_decimal_point_is_an_error() {
    let err = Scanner::new(String::from("1.2.3;"))
        .scan()
        .expect_err("a second decimal point should fail");
    assert_eq!(err.kind, LexingErrorKind::MalformedNumber);
    assert_eq!(err.lexeme, "1.2");
    assert_eq!(err.line, 1);
}

#[test]
fn scan_unterminated_string_is_an_error() {
    let err = Scanner::new(String::from("\"abc"))
        .scan()
        .expect_err("an unterminated string should fail");
    assert_eq!(err.kind, LexingErrorKind::UnterminatedString);
}

#[test]
fn scan_unknown_character_is_an_error() {
    let err = Scanner::new(String::from("1 + @"))
        .scan()
        .expect_err("an unknown character should fail");
    assert_eq!(err.kind, LexingErrorKind::UnknownChar);
    assert_eq!(err.lexeme, "@");
    assert_eq!(err.line, 1);
}

#[test]
fn scan_string_literal_keeps_raw_lexeme_and_unescapes_value() {
    let tokens = scan_ok("\"a\\\"b\";");
    assert_eq!(tokens[0].kind, TokenKind::String);
    assert_eq!(tokens[0].lexeme, "\"a\\\"b\"");
    match &tokens[0].literal {
        Some(LiteralValue::String(s)) => assert_eq!(s, "a\"b"),
        other => panic!("expected a string literal, got {:?}", other),
    }
}

#[test]
fn scan_multiline_string_spans_lines() {
    let tokens = scan_ok("\"a\nb\" 1");
    assert_eq!(tokens[0].kind, TokenKind::String);
    assert_eq!(tokens[0].loc.line_begin, 1);
    assert_eq!(tokens[0].loc.line_end, 2);
    match &tokens[0].literal {
        Some(LiteralValue::String(s)) => assert_eq!(s, "a\nb"),
        other => panic!("expected a string literal, got {:?}", other),
    }
    assert_eq!(tokens[1].kind, TokenKind::Number);
    assert_eq!(tokens[1].loc.line_begin, 2);
}

#[test]
fn scan_comment_discards_rest_of_line() {
    let tokens = scan_ok("1 // two three four\n2;");
    assert_eq!(
        kinds(&tokens),
        vec![TokenKind::Number, TokenKind::Number, TokenKind::Semicolon, TokenKind::Eof]
    );
    assert_eq!(tokens[1].loc.line_begin, 2);
}

#[test]
fn scan_filters_whitespace_and_newlines() {
    let tokens = scan_ok(" \t\r \n ( ");
    assert_eq!(kinds(&tokens), vec![TokenKind::LeftParen, TokenKind::Eof]);
    assert_eq!(tokens[0].loc.line_begin, 2);
}

#[test]
fn scan_keywords_and_identifiers() {
    let tokens = scan_ok("print nil and fetch");
    assert_eq!(
        kinds(&tokens),
        vec![TokenKind::Print, TokenKind::Nil, TokenKind::And, TokenKind::Identifier, TokenKind::Eof]
    );
    assert_eq!(tokens[3].lexeme, "fetch");
}

#[test]
fn scan_true_and_false_carry_boolean_literals() {
    let tokens = scan_ok("true false");
    assert!(matches!(tokens[0].literal, Some(LiteralValue::Bool(true))));
    assert!(matches!(tokens[1].literal, Some(LiteralValue::Bool(false))));
}

#[test]
fn scan_one_and_two_character_operators() {
    let tokens = scan_ok("! != = == < <= > >= / .");
    assert_eq!(
        kinds(&tokens),
        vec![
            TokenKind::Bang,
            TokenKind::BangEqual,
            TokenKind::Equal,
            TokenKind::EqualEqual,
            TokenKind::Less,
            TokenKind::LessEqual,
            TokenKind::Greater,
            TokenKind::GreaterEqual,
            TokenKind::Slash,
            TokenKind::Dot,
            TokenKind::Eof,
        ]
    );
    assert_eq!(tokens[1].lexeme, "!=");
}

#[test]
fn scan_multibyte_text_inside_strings() {
    let tokens = scan_ok("\"héllo wörld\";");
    match &tokens[0].literal {
        Some(LiteralValue::String(s)) => assert_eq!(s, "héllo wörld"),
        other => panic!("expected a string literal, got {:?}", other),
    }
}

#[test]
fn rescanning_emitted_lexemes_reproduces_kind_and_literal() {
    let tokens = scan_ok("print 1.5 + (\"a\\\"b\") <= foo != true;");
    for token in tokens {
        if token.kind == TokenKind::Eof {
            continue;
        }
        let again = Scanner::new(token.lexeme.clone())
            .scan()
            .expect("a lexeme should scan cleanly on its own");
        assert_eq!(again.len(), 2, "one token plus Eof for {:?}", token.lexeme);
        assert_eq!(again[0].kind, token.kind);
        assert_eq!(again[0].lexeme, token.lexeme);
        match (&again[0].literal, &token.literal) {
            (None, None) => {}
            (Some(LiteralValue::Bool(a)), Some(LiteralValue::Bool(b))) => assert_eq!(a, b),
            (Some(LiteralValue::Number(a)), Some(LiteralValue::Number(b))) => assert_eq!(a, b),
            (Some(LiteralValue::String(a)), Some(LiteralValue::String(b))) => assert_eq!(a, b),
            (a, b) => panic!("literals differ: {:?} vs {:?}", a, b),
        }
    }
}

#[test]
fn loc_single_line_helpers() {
    let single = Loc::single(4);
    assert!(single.is_single());
    assert_eq!(single.offset(), 0);
    let span = Loc { line_begin: 2, line_end: 5 };
    assert!(!span.is_single());
    assert_eq!(span.offset(), 3);
}
