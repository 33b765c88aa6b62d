use markup_compiler::parser::ast::{Ast, Stmt};
use markup_compiler::parser::parser::{parse_source, Parser};
use markup_compiler::parser::token::ErrorKind;

fn parse(source: &str) -> Vec<Stmt> {
    match parse_source(source.to_string(), "t.mk".to_string()) {
        Ok(Ast::Program(stmts)) => stmts,
        Err(e) => panic!("unexpected error: {:?}", e),
    }
}

fn element(tag: &str, children: Vec<Stmt>) -> Stmt {
    Stmt::Element(tag.to_string(), children)
}

fn text(s: &str) -> Stmt {
    Stmt::String(s.to_string())
}

#[test]
fn parses_nested_elements() {
    assert_eq!(
        parse(r#"<a>{ "x" <b>{ "y" } <c>{} } "z""#),
        vec![element("a", vec![text("x"), element("b", vec![text("y")]), element("c", vec![])]), text("z")]
    );
}

#[test]
fn empty_source_parses_to_empty_program() {
    assert!(parse("").is_empty());
    assert!(parse(" \n ").is_empty());
}

#[test]
fn missing_closing_brace_is_reported() {
    let e = parse_source("<a>{\"x\"".to_string(), "t.mk".to_string()).unwrap_err();
    assert_eq!(e.kind, ErrorKind::Syntax);
    assert_eq!(e.message, "Expected '}'");
    assert_eq!((e.line, e.column), (1, Some(5)));
}

#[test]
fn missing_closing_brace_of_inner_element_is_reported() {
    let e = parse_source("<a>{ <b>{ \"x\" }".to_string(), "t.mk".to_string()).unwrap_err();
    assert_eq!(e.message, "Expected '}'");
}

#[test]
fn tag_name_must_be_an_identifier() {
    let e = parse_source("<1>{}".to_string(), "t.mk".to_string()).unwrap_err();
    assert_eq!(e.kind, ErrorKind::Syntax);
    assert_eq!(e.message, "Expected tag name");
    assert_eq!((e.line, e.column), (1, Some(2)));
}

#[test]
fn missing_greater_than_is_reported() {
    let e = parse_source("<a {}".to_string(), "t.mk".to_string()).unwrap_err();
    assert_eq!(e.message, "Expected '>'");
    assert_eq!(e.column, Some(4));
}

#[test]
fn missing_open_brace_is_reported() {
    let e = parse_source("<a> \"x\"".to_string(), "t.mk".to_string()).unwrap_err();
    assert_eq!(e.message, "Expected '{'");
    assert_eq!(e.column, Some(5));
}

#[test]
fn unexpected_token_is_reported() {
    let e = parse_source("<a>{ 12 }".to_string(), "t.mk".to_string()).unwrap_err();
    assert_eq!(e.message, "Unexpected token 12");
    assert_eq!((e.line, e.column), (1, Some(6)));
}

#[test]
fn closing_tag_after_element_is_rejected() {
    let e = parse_source("<a>{\"x\"}</a>".to_string(), "t.mk".to_string()).unwrap_err();
    assert_eq!(e.kind, ErrorKind::Syntax);
    assert_eq!(e.message, "Expected tag name");
}

#[test]
fn lexical_error_comes_through_the_parser() {
    let e = parse_source("<a>{'x}".to_string(), "t.mk".to_string()).unwrap_err();
    assert_eq!(e.kind, ErrorKind::Lexical);
    assert_eq!(e.column, Some(5));
}

#[test]
fn parser_steps() {
    let mut p = Parser::new("<a>{}".to_string(), "t.mk".to_string()).unwrap();
    assert_eq!(p.peek().unwrap().lexeme, "<");
    assert!(!p.match_token(">"));
    assert!(p.match_token("<"));
    assert!(p.expect("a").is_ok());
    let e = p.expect("{").unwrap_err();
    assert_eq!(e.message, "Expected '{'");
    p.advance();
    p.advance();
    assert!(!p.is_at_end());
    p.advance();
    assert!(p.is_at_end());
    assert!(p.peek().is_none());
    assert_eq!(p.parse_stmt().unwrap(), Stmt::Empty);
}

fn declarations(source: &str) -> Result<Vec<Stmt>, markup_compiler::parser::token::CompileError> {
    let mut p = Parser::new(source.to_string(), "d.mk".to_string())?;
    match p.parse_declarations()? {
        Ast::Program(stmts) => Ok(stmts),
    }
}

#[test]
fn function_declaration() {
    assert_eq!(
        declarations("main: fn\nhelper : fn").unwrap(),
        vec![Stmt::DeclFunc("main".to_string()), Stmt::DeclFunc("helper".to_string())]
    );
}

#[test]
fn identifier_without_colon_declares_nothing() {
    assert_eq!(declarations("x y").unwrap(), vec![Stmt::Empty, Stmt::Empty]);
}

#[test]
fn other_keyword_after_colon_is_reported_by_line() {
    let e = declarations("a: fn\nx: export").unwrap_err();
    assert_eq!(e.kind, ErrorKind::Syntax);
    assert_eq!(e.message, "Unexpected keyword 'export'");
    assert_eq!((e.file.as_str(), e.line, e.column), ("d.mk", 2, None));
}

#[test]
fn missing_keyword_after_colon_is_reported() {
    let e = declarations("  x:").unwrap_err();
    assert_eq!(e.message, "Expected keyword after 'x:'");
    assert_eq!((e.line, e.column), (1, Some(3)));
}

#[test]
fn declaration_must_start_with_identifier() {
    let e = declarations("5: fn").unwrap_err();
    assert_eq!(e.message, "Unexpected token 5");
}

#[test]
fn error_builders() {
    let p = Parser::new("tok".to_string(), "e.mk".to_string()).unwrap();
    let t = p.peek().unwrap();
    let e = markup_compiler::parser::parser::parse_error(&t, "bad".to_string());
    assert_eq!((e.file.as_str(), e.line, e.column, e.message.as_str()), ("e.mk", 1, Some(1), "bad"));
    let e = markup_compiler::parser::parser::line_error("e.mk", 7, "worse".to_string());
    assert_eq!((e.file.as_str(), e.line, e.column, e.message.as_str()), ("e.mk", 7, None, "worse"));
}
