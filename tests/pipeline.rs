use markup_compiler::ir::ir::IR;
use markup_compiler::ir::semantical_analizer::SemanticalAnalizer;
use markup_compiler::parser::ast::{Ast, Stmt};
use markup_compiler::parser::parser::parse_source;
use markup_compiler::translator::ir_to_c::TranslatorC;
use markup_compiler::translator::ir_to_html::TranslatorHTML;

fn compile(source: &str) -> String {
    let ast = parse_source(source.to_string(), "p.mk".to_string()).unwrap();
    let analyzer = SemanticalAnalizer::new();
    let (ir, _) = analyzer.analize(&ast);
    let mut html = TranslatorHTML { output: String::new() };
    html.translate(&ir)
}

/// Reads the tags of HTML text back: (name, depth) for each open tag, and checks that
/// each close tag matches the innermost open one.
fn tag_outline(html: &str) -> Vec<(String, usize)> {
    let mut out = Vec::new();
    let mut stack: Vec<String> = Vec::new();
    let mut rest = html;
    while let Some(start) = rest.find('<') {
        let end = start + rest[start..].find('>').unwrap();
        let body = &rest[start + 1..end];
        if let Some(name) = body.strip_prefix('/') {
            assert_eq!(stack.pop().as_deref(), Some(name));
        } else {
            out.push((body.to_string(), stack.len()));
            stack.push(body.to_string());
        }
        rest = &rest[end + 1..];
    }
    assert!(stack.is_empty());
    out
}

#[test]
fn element_with_text_renders_as_html() {
    assert_eq!(compile(r#"<a>{"x"}"#), "<a>x</a>");
}

#[test]
fn nested_elements_render_in_order() {
    assert_eq!(
        compile(r#"<html>{ <body>{ "hi" <p>{ "one" } <p>{} } } "tail""#),
        "<html><body>hi<p>one</p><p></p></body></html>tail"
    );
}

#[test]
fn html_keeps_tag_names_and_depths() {
    let html = compile(r#"<a>{ <b>{ <c>{ "t" } } <d>{} } <e>{}"#);
    assert_eq!(
        tag_outline(&html),
        vec![
            ("a".to_string(), 0),
            ("b".to_string(), 1),
            ("c".to_string(), 2),
            ("d".to_string(), 1),
            ("e".to_string(), 0),
        ]
    );
}

#[test]
fn text_is_not_escaped() {
    assert_eq!(compile(r#"<a>{"1 < 2 & 3"}"#), "<a>1 < 2 & 3</a>");
}

#[test]
fn translating_twice_with_fresh_buffers_gives_the_same_text() {
    let ast = parse_source(r#"<a>{"x" <b>{}}"#.to_string(), "p.mk".to_string()).unwrap();
    let (ir, _) = SemanticalAnalizer::new().analize(&ast);
    let first = TranslatorHTML { output: String::new() }.translate(&ir);
    let second = TranslatorHTML { output: String::new() }.translate(&ir);
    assert_eq!(first, second);
    assert_eq!(first, "<a>x<b></b></a>");
}

#[test]
fn translate_returns_the_whole_buffer() {
    let ir = IR::String("ab".to_string());
    let mut t = TranslatorHTML { output: "pre:".to_string() };
    assert_eq!(t.translate(&ir), "pre:ab");
    assert_eq!(t.translate(&ir), "pre:abab");
    assert_eq!(t.output, "pre:abab");
}

#[test]
fn html_ignores_declarations_and_empty_nodes() {
    let ir = IR::Program(vec![
        Box::new(IR::Empty),
        Box::new(IR::DeclFunc("f".to_string())),
        Box::new(IR::String("s".to_string())),
    ]);
    assert_eq!(TranslatorHTML { output: String::new() }.translate(&ir), "s");
}

#[test]
fn analysis_mirrors_the_tree() {
    let ast = Ast::Program(vec![
        Stmt::Element("a".to_string(), vec![Stmt::String("x".to_string()), Stmt::Empty]),
        Stmt::DeclFunc("f".to_string()),
    ]);
    let analyzer = SemanticalAnalizer::new();
    let (ir, _) = analyzer.analize(&ast);
    assert_eq!(
        ir,
        IR::Program(vec![
            Box::new(IR::Element(
                "a".to_string(),
                vec![Box::new(IR::String("x".to_string())), Box::new(IR::Empty)]
            )),
            Box::new(IR::DeclFunc("f".to_string())),
        ])
    );
}

#[test]
fn analysis_of_single_statements() {
    let analyzer = SemanticalAnalizer::new();
    assert_eq!(analyzer.analize_stmt(&Stmt::Empty).0, IR::Empty);
    assert_eq!(analyzer.analize_stmt(&Stmt::String("t".to_string())).0, IR::String("t".to_string()));
    assert_eq!(analyzer.analize_function_decl(&"g".to_string()).0, IR::DeclFunc("g".to_string()));
    let t = analyzer.none();
    assert!(t.fields.is_empty());
}

#[test]
fn c_backend_emits_stub_for_declaration() {
    let mut t = TranslatorC { output: String::new() };
    assert_eq!(t.translate(&IR::DeclFunc("main".to_string())), "void main() {\n}\n");
    assert_eq!(t.translate(&IR::DeclFunc("g".to_string())), "void main() {\n}\nvoid g() {\n}\n");
}

#[test]
fn c_backend_does_not_visit_program_children() {
    let ir = IR::Program(vec![Box::new(IR::DeclFunc("f".to_string()))]);
    assert_eq!(TranslatorC { output: String::new() }.translate(&ir), "");
    assert_eq!(TranslatorC { output: String::new() }.translate(&IR::String("x".to_string())), "");
}

#[test]
fn declaration_lowers_to_stub() {
    let mut p = markup_compiler::parser::parser::Parser::new("main: fn".to_string(), "d.mk".to_string()).unwrap();
    let ast = p.parse_declarations().unwrap();
    let (ir, _) = SemanticalAnalizer::new().analize(&ast);
    match &ir {
        IR::Program(nodes) => {
            assert_eq!(nodes.len(), 1);
            let mut t = TranslatorC { output: String::new() };
            assert_eq!(t.translate(&nodes[0]), "void main() {\n}\n");
        }
        _ => panic!("expected a program"),
    }
}
