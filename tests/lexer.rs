use markup_compiler::parser::lexer::{lex, Lexer};
use markup_compiler::parser::token::{ErrorKind, Token, TokenKind};

fn tokens(source: &str) -> Vec<Token> {
    match lex(source.to_string(), "test.mk".to_string()) {
        Ok(ts) => ts,
        Err(e) => panic!("unexpected error: {:?}", e),
    }
}

fn kinds_and_lexemes(source: &str) -> Vec<(TokenKind, String)> {
    tokens(source).into_iter().map(|t| (t.kind, t.lexeme)).collect()
}

#[test]
fn white_space_only_gives_no_tokens() {
    assert!(tokens("").is_empty());
    assert!(tokens("   ").is_empty());
    assert!(tokens(" \n\t\r\n  ").is_empty());
    assert!(tokens("\u{3000}\u{a0}").is_empty());
}

#[test]
fn trailing_white_space_adds_no_end_token() {
    let ts = kinds_and_lexemes("a   \n");
    assert_eq!(ts, vec![(TokenKind::Identifier, "a".to_string())]);
}

#[test]
fn numbers() {
    assert_eq!(
        kinds_and_lexemes("42 3.14 .5 7."),
        vec![
            (TokenKind::Number, "42".to_string()),
            (TokenKind::Number, "3.14".to_string()),
            (TokenKind::Number, ".5".to_string()),
            (TokenKind::Number, "7.".to_string()),
        ]
    );
}

#[test]
fn minus_is_an_operator_before_a_number() {
    assert_eq!(
        kinds_and_lexemes("-1"),
        vec![(TokenKind::Operator, "-".to_string()), (TokenKind::Number, "1".to_string())]
    );
}

#[test]
fn identifiers_and_keywords() {
    assert_eq!(
        kinds_and_lexemes("foo _bar x1_y export true false fn"),
        vec![
            (TokenKind::Identifier, "foo".to_string()),
            (TokenKind::Identifier, "_bar".to_string()),
            (TokenKind::Identifier, "x1_y".to_string()),
            (TokenKind::Keyword, "export".to_string()),
            (TokenKind::Keyword, "true".to_string()),
            (TokenKind::Keyword, "false".to_string()),
            (TokenKind::Identifier, "fn".to_string()),
        ]
    );
}

#[test]
fn identifier_continues_with_unicode_letters() {
    assert_eq!(kinds_and_lexemes("caf\u{e9}"), vec![(TokenKind::Identifier, "caf\u{e9}".to_string())]);
}

#[test]
fn single_character_tokens() {
    assert_eq!(
        kinds_and_lexemes("<=(;@~"),
        vec![
            (TokenKind::Operator, "<".to_string()),
            (TokenKind::Operator, "=".to_string()),
            (TokenKind::Punctuation, "(".to_string()),
            (TokenKind::Punctuation, ";".to_string()),
            (TokenKind::Symbol, "@".to_string()),
            (TokenKind::Unknown, "~".to_string()),
        ]
    );
}

#[test]
fn all_operators_punctuation_and_symbols() {
    for c in "+-*/%=!<>".chars() {
        assert_eq!(kinds_and_lexemes(&c.to_string()), vec![(TokenKind::Operator, c.to_string())]);
    }
    for c in "(){}[],;".chars() {
        assert_eq!(kinds_and_lexemes(&c.to_string()), vec![(TokenKind::Punctuation, c.to_string())]);
    }
    for c in "@#$?:".chars() {
        assert_eq!(kinds_and_lexemes(&c.to_string()), vec![(TokenKind::Symbol, c.to_string())]);
    }
}

#[test]
fn string_literals_and_escapes() {
    assert_eq!(
        kinds_and_lexemes(r#""a\nb\tc\"d\\e\q" 'it\'s'"#),
        vec![
            (TokenKind::String, "a\nb\tc\"d\\eq".to_string()),
            (TokenKind::String, "it's".to_string()),
        ]
    );
}

#[test]
fn quote_of_the_other_kind_does_not_close() {
    assert_eq!(kinds_and_lexemes(r#""it's""#), vec![(TokenKind::String, "it's".to_string())]);
}

#[test]
fn locations_follow_lines_and_columns() {
    let ts = tokens("ab  12\n  \"s\" x");
    let places: Vec<(usize, usize)> = ts.iter().map(|t| (t.location.line, t.location.column)).collect();
    assert_eq!(places, vec![(1, 1), (1, 5), (2, 3), (2, 7)]);
    assert!(ts.iter().all(|t| t.location.file == "test.mk"));
}

#[test]
fn unterminated_string_points_at_opening_quote() {
    let e = lex("<a>{\"unterminated".to_string(), "f.mk".to_string()).unwrap_err();
    assert_eq!(e.kind, ErrorKind::Lexical);
    assert_eq!(e.file, "f.mk");
    assert_eq!(e.line, 1);
    assert_eq!(e.column, Some(5));
    assert_eq!(e.message, "Unterminated string");
}

#[test]
fn unterminated_string_on_a_later_line() {
    let e = lex("x\n  'abc\\'".to_string(), "f.mk".to_string()).unwrap_err();
    assert_eq!((e.line, e.column), (2, Some(3)));
}

#[test]
fn next_token_returns_end_of_input() {
    let mut lexer = Lexer::new("  ".to_string(), "f.mk".to_string());
    let t = lexer.next_token().unwrap();
    assert!(t.kind == TokenKind::Eof);
    assert_eq!(t.lexeme, "Eof");
    assert_eq!((t.location.line, t.location.column), (1, 3));
}

#[test]
fn lexer_steps() {
    let mut lexer = Lexer::new("a\nb".to_string(), "f.mk".to_string());
    assert_eq!(lexer.peek(), 'a');
    lexer.advance();
    assert_eq!(lexer.peek(), '\n');
    lexer.advance();
    assert_eq!((lexer.line, lexer.column), (2, 1));
    assert_eq!(lexer.peek(), 'b');
    lexer.advance();
    assert_eq!(lexer.peek(), '\0');
    assert!(lexer.is_keyword("export"));
    assert!(!lexer.is_keyword("exports"));
}
