use resync::parsers::base;
use resync::parsers::javascript::parser::JsParser;
use resync::parsers::rust::parser::RsParser;
use resync::parsers::types::SourceFile;
use resync::parsers::{get_parser, parser_for_extension, SelectedParser};

fn file(path: &str, extension: Option<&str>) -> SourceFile {
    SourceFile { path: path.to_string(), name: None, extension: extension.map(|e| e.to_string()) }
}

#[test]
fn parser_by_extension() {
    assert_eq!(parser_for_extension("js"), Some(SelectedParser::Js(JsParser { ts: false })));
    assert_eq!(parser_for_extension("jsx"), Some(SelectedParser::Js(JsParser { ts: false })));
    assert_eq!(parser_for_extension("ts"), Some(SelectedParser::Js(JsParser { ts: true })));
    assert_eq!(parser_for_extension("rs"), Some(SelectedParser::Rs(RsParser)));
    assert_eq!(parser_for_extension("tsx"), None);
    assert_eq!(parser_for_extension(""), None);
}

#[test]
fn parser_for_files() {
    let patterns = vec!["node_modules".to_string(), ".git".to_string()];
    assert_eq!(get_parser(&file("src/a.rs", Some("rs")), &patterns), Some(SelectedParser::Rs(RsParser)));
    assert_eq!(get_parser(&file("web/b.jsx", Some("jsx")), &patterns), Some(SelectedParser::Js(JsParser { ts: false })));
    assert_eq!(get_parser(&file("node_modules/c.js", Some("js")), &patterns), None);
    assert_eq!(get_parser(&file("x/.git/d.rs", Some("rs")), &patterns), None);
    assert_eq!(get_parser(&file("Makefile", None), &patterns), None);
    assert_eq!(get_parser(&file("e.py", Some("py")), &patterns), None);
}

#[test]
fn empty_pattern_ignores_every_file() {
    let patterns = vec!["".to_string()];
    assert_eq!(get_parser(&file("src/a.rs", Some("rs")), &patterns), None);
}

#[test]
fn first_parser_takes_only_rust() {
    let patterns = vec!["target".to_string()];
    assert_eq!(base::get_parser(&file("src/a.rs", Some("rs")), &patterns), Some(RsParser));
    assert_eq!(base::get_parser(&file("src/a.js", Some("js")), &patterns), None);
    assert_eq!(base::get_parser(&file("target/a.rs", Some("rs")), &patterns), None);
}
