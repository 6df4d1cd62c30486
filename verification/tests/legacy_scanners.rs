use resync::parser;
use resync::parsers::javascript;
use resync::parsers::typescript::{self, normal_function, TsParser};
use resync::types::{CommentType, Span};

const DOCUMENTED: &str = "/* doc */\nfunction a() {\n  return 1;\n}\nrest";
const FREE: &str = "/* note */\nlet x = 1;\nlet y = 2;\nlet z = 3;\n";

#[test]
fn top_scanner_finds_function_body() {
    let (rest, (comment, function)) = parser::get_fun(Span::new(DOCUMENTED)).expect("comment and function");
    assert_eq!(comment.start.fragment(), "/*");
    assert_eq!((comment.start.location_line(), comment.start.get_column()), (1, 1));
    assert_eq!(comment.end.fragment(), "*/");
    assert_eq!((comment.end.location_line(), comment.end.get_column()), (1, 8));
    assert_eq!((function.start.location_line(), function.start.get_column()), (2, 15));
    assert_eq!((function.end.location_line(), function.end.get_column()), (4, 1));
    assert_eq!(rest.fragment(), "\nrest");
}

#[test]
fn top_scanner_takes_two_lines_of_free_code() {
    let (rest, (_comment, code)) = parser::get_fun(Span::new(FREE)).expect("comment and code");
    assert_eq!((code.start.location_line(), code.start.get_column()), (1, 11));
    assert_eq!((code.end.location_line(), code.end.get_column()), (3, 1));
    assert_eq!(rest.fragment(), "let y = 2;\nlet z = 3;\n");
}

#[test]
fn top_scanner_needs_a_comment() {
    assert!(parser::get_fun(Span::new("function a() {}")).is_err());
    assert!(parser::get_fun(Span::new("/* never closed")).is_err());
}

#[test]
fn top_symbol_type() {
    let (rest, kind) = parser::get_symbol_type("x => {").unwrap();
    assert_eq!((rest, kind), ("", parser::FunType::Docstring));
    let (rest, kind) = parser::get_symbol_type("foo() {bar").unwrap();
    assert_eq!((rest, kind), ("bar", parser::FunType::Docstring));
    assert_eq!(parser::get_symbol_type("{").unwrap(), ("", parser::FunType::Docstring));
    assert_eq!(parser::get_symbol_type("let a").unwrap(), ("", parser::FunType::Free));
    assert_eq!(parser::get_symbol_type("f(): T {").unwrap(), ("", parser::FunType::Free));
}

#[test]
fn top_scanner_all_functions() {
    let text = "/* one */\nfunction a() {\n}\n/* two */\nconst b = () => {\n  x\n}\n";
    let all = parser::get_all_functions(Span::new(text));
    let lines: Vec<(usize, usize)> =
        all.iter().map(|(c, f)| (c.start.location_line(), f.end.location_line())).collect();
    assert_eq!(lines, vec![(1, 7)]);
}

#[test]
fn function_close_skips_inner_braces() {
    let (rest, pos) = parser::get_fun_close(Span::new("abc { } def }")).expect("a closing brace");
    assert_eq!(pos.get_column(), 13);
    assert_eq!(rest.fragment(), "");
    let (rest, pos) = typescript::get_fun_close(Span::new(" a { b } c }")).expect("a closing brace");
    assert_eq!(pos.get_column(), 12);
    assert_eq!(rest.fragment(), "");
    let (rest, pos) = javascript::get_fun_close(Span::new("x}y")).expect("a closing brace");
    assert_eq!((pos.get_column(), rest.fragment()), (2, "y"));
    assert!(parser::get_fun_close(Span::new("no { closing }")).is_err());
    assert!(typescript::get_fun_close(Span::new("no closing")).is_err());
}

#[test]
fn fun_and_comment_position() {
    let (rest, pos) = parser::get_fun_and_comment(Span::new("a => {b}")).unwrap();
    assert_eq!((pos.get_column(), rest.fragment()), (7, "b}"));
    let (rest, pos) = parser::get_fun_and_comment(Span::new("plain")).unwrap();
    assert_eq!((pos.get_column(), rest.fragment()), (6, ""));
}

#[test]
fn javascript_scanner_finds_function_body() {
    let (rest, (comment, function)) = javascript::get_fun(Span::new(DOCUMENTED)).expect("comment and function");
    assert_eq!((comment.end.location_line(), comment.end.get_column()), (1, 8));
    assert_eq!((function.start.location_line(), function.start.get_column()), (2, 15));
    assert_eq!((function.end.location_line(), function.end.get_column()), (4, 1));
    assert_eq!(rest.fragment(), "\nrest");
}

#[test]
fn javascript_scanner_free_code() {
    let (_rest, (_comment, code)) = javascript::get_fun(Span::new(FREE)).expect("comment and code");
    assert_eq!(code.end.location_line(), 3);
}

#[test]
fn javascript_symbol_type() {
    type FunType = javascript::FunType;
    assert_eq!(javascript::get_symbol_type("a => {").unwrap().1, (FunType::Arrow, CommentType::Docstring));
    assert_eq!(javascript::get_symbol_type("f() {").unwrap().1, (FunType::Normal, CommentType::Docstring));
    assert_eq!(javascript::get_symbol_type("arrow").unwrap().1, (FunType::Arrow, CommentType::Docstring));
    assert_eq!(javascript::get_symbol_type("normal").unwrap().1, (FunType::Normal, CommentType::Docstring));
    assert_eq!(javascript::get_symbol_type("f(a): string {").unwrap().1, (FunType::Empty, CommentType::Free));
    assert_eq!(javascript::get_symbol_type("x").unwrap(), ("", (FunType::Empty, CommentType::Free)));
}

#[test]
fn javascript_all_functions() {
    let text = "/* one */\nfunction a() {\n}\n/* two */\nconst b = () => {\n  x\n}\n";
    let all = javascript::get_all_functions(Span::new(text));
    assert_eq!(all.len(), 2);
    assert_eq!(javascript::get_all_functions(Span::new("no comments")).len(), 0);
}

#[test]
fn typescript_symbol_pair() {
    let (rest, (comment, function)) = typescript::get_symbol_pair(Span::new(DOCUMENTED)).expect("pair");
    assert_eq!((comment.start.location_line(), comment.start.get_column()), (1, 1));
    assert_eq!((function.start.location_line(), function.start.get_column()), (2, 15));
    assert_eq!((function.end.location_line(), function.end.get_column()), (4, 1));
    assert_eq!(rest.fragment(), "\nrest");
}

#[test]
fn typescript_free_code_takes_two_lines() {
    let (rest, (_comment, code)) = typescript::get_symbol_pair(Span::new(FREE)).expect("pair");
    assert_eq!((code.start.location_line(), code.end.location_line()), (1, 3));
    assert_eq!(rest.fragment(), "let y = 2;\nlet z = 3;\n");
    let text = "/* note */\nlet a = 1;\nlet b = 2;\nlet c = 3;\nlet d = 4;\n";
    let (rest, (comment, code)) = typescript::get_symbol_pair(Span::new(text)).expect("pair");
    assert_eq!((comment.start.get_column(), comment.end.get_column()), (1, 9));
    assert_eq!((code.start.location_line(), code.start.get_column()), (1, 11));
    assert_eq!((code.end.location_line(), code.end.get_column()), (3, 1));
    assert_eq!(rest.fragment(), "let b = 2;\nlet c = 3;\nlet d = 4;\n");
}

#[test]
fn typescript_symbol_type() {
    type FunType = typescript::FunType;
    assert_eq!(typescript::get_symbol_type("f(a): string {").unwrap().1, (FunType::Normal, CommentType::Docstring));
    assert_eq!(typescript::get_symbol_type("a =>{").unwrap().1, (FunType::Arrow, CommentType::Docstring));
    assert_eq!(typescript::get_symbol_type("f(a)").unwrap().1, (FunType::Empty, CommentType::Free));
}

#[test]
fn typescript_parser_collects_pairs() {
    let text = "/* one */\nfunction a(): void {\n}\n/* two */\nlet b = 1;\n1\n2\n3\n4\n";
    let pairs = TsParser.parse(Span::new(text));
    let lines: Vec<(usize, usize, usize)> = pairs
        .iter()
        .map(|(c, f)| (c.start.location_line(), f.start.location_line(), f.end.location_line()))
        .collect();
    assert_eq!(lines, vec![(1, 2, 3), (4, 4, 6)]);
}

#[test]
fn normal_function_parts() {
    let (rest, (declaration, open, params, close, body_start, body_end)) =
        normal_function(Span::new("function (a, b): number {return a+b} tail")).expect("function");
    assert_eq!(declaration.fragment(), "function");
    assert_eq!(open.fragment(), "(");
    assert_eq!(params.fragment(), "a, b");
    assert_eq!(close.fragment(), ")");
    assert_eq!(body_start.get_column(), 26);
    assert_eq!(body_end.get_column(), 37);
    assert_eq!(rest.fragment(), " tail");
    let (rest, (declaration, open, params, close, _, _)) =
        normal_function(Span::new("function f(a) {\n}")).expect("named function");
    assert_eq!(declaration.fragment(), "function");
    assert_eq!((open.fragment(), params.fragment(), close.fragment()), ("(", "a", ")"));
    assert_eq!(rest.fragment(), "");
    assert!(normal_function(Span::new("function foo_1 (x) {}")).is_ok());
    assert!(normal_function(Span::new("function() {}")).is_err());
    assert!(normal_function(Span::new("function f x() {}")).is_err());
}

#[test]
fn arrow_function_with_word() {
    let (rest, (opening, (start, end))) = typescript::arrow_function(Span::new("=>  value;")).expect("arrow");
    assert_eq!(opening.fragment(), "=>");
    assert_eq!((start.get_column(), end.get_column()), (5, 10));
    assert_eq!(rest.fragment(), ";");
    assert!(typescript::arrow_function(Span::new("=> ;")).is_err());
}

#[test]
fn unbalanced_body_fails() {
    assert!(typescript::match_body(Span::new("{ { }")).is_err());
    assert!(typescript::match_body(Span::new("x{}")).is_err());
    let (rest, (_start, end)) = typescript::match_body(Span::new("{}}")).expect("body");
    assert_eq!((end.get_column(), rest.fragment()), (3, "}"));
}

#[test]
fn span_lines_and_columns() {
    let span = Span::new("ab\n\u{e9}\u{e9}x");
    assert_eq!(span.location_line(), 1);
    assert_eq!(span.get_column(), 1);
    let (rest, _) = typescript::get_params(Span::new("(x)\ny")).expect("params");
    assert_eq!((rest.location_line(), rest.get_column(), rest.fragment()), (1, 4, "\ny"));
    let (rest, _) = resync::scan::take_chars(span, 5).expect("five characters");
    assert_eq!((rest.location_line(), rest.get_column(), rest.fragment()), (2, 5, "x"));
}
