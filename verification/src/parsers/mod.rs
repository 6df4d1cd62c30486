//! The parsers, and how one is chosen for a file.
use vstd::prelude::*;
use vstd::utf8::encode_utf8;
use crate::ignore::{ac_builds, ac_is_match, ac_new, matches_any, pattern_bytes};
use crate::parsers::javascript::parser::JsParser;
use crate::parsers::rust::parser::RsParser;
use crate::parsers::types::SourceFile;
use crate::scan::str_eq;

pub mod base;
pub mod javascript;
pub mod rust;
pub mod types;
pub mod typescript;

verus! {

/// The parser chosen for a file.
#[derive(Debug, Clone, Copy, PartialEq, Eq, Structural)]
pub enum SelectedParser {
    Js(JsParser),
    Rs(RsParser),
}

/// `js` and `jsx` files are JavaScript, `ts` files TypeScript, `rs` files
/// Rust; there is no parser for other extensions.
pub open spec fn parser_for(extension: Seq<char>) -> Option<SelectedParser> {
    if extension == seq!['j', 's'] || extension == seq!['j', 's', 'x'] {
        Some(SelectedParser::Js(JsParser { ts: false }))
    } else if extension == seq!['t', 's'] {
        Some(SelectedParser::Js(JsParser { ts: true }))
    } else if extension == seq!['r', 's'] {
        Some(SelectedParser::Rs(RsParser))
    } else {
        None
    }
}

/// The parser for files with this extension.
pub fn parser_for_extension(extension: &str) -> (r: Option<SelectedParser>)
    ensures
        r == parser_for(extension@),
{
    proof {
        reveal_strlit("js");
        assert("js"@ =~= seq!['j', 's']);
        reveal_strlit("jsx");
        assert("jsx"@ =~= seq!['j', 's', 'x']);
        reveal_strlit("ts");
        assert("ts"@ =~= seq!['t', 's']);
        reveal_strlit("rs");
        assert("rs"@ =~= seq!['r', 's']);
    }
    if str_eq(extension, "js") || str_eq(extension, "jsx") {
        Some(SelectedParser::Js(JsParser { ts: false }))
    } else if str_eq(extension, "ts") {
        Some(SelectedParser::Js(JsParser { ts: true }))
    } else if str_eq(extension, "rs") {
        Some(SelectedParser::Rs(RsParser))
    } else {
        None
    }
}

/// One of the patterns occurs in the file's path.
pub open spec fn is_ignored(file: SourceFile, patterns: Seq<String>) -> bool {
    matches_any(encode_utf8(file.path@), pattern_bytes(patterns))
}

/// The parser chosen for a file: none when no automaton can be built for the
/// ignore patterns, when one of them occurs in the file's path, or when its
/// extension has none; else the parser for its extension.
pub open spec fn parser_choice(file: SourceFile, ignore_patterns: Seq<String>) -> Option<SelectedParser> {
    if !ac_builds(pattern_bytes(ignore_patterns)) || is_ignored(file, ignore_patterns) {
        None
    } else {
        match file.extension {
            Some(ext) => parser_for(ext@),
            None => None,
        }
    }
}

/// The parser for a file: none when one of the ignore patterns occurs in
/// its path, or when its extension has no parser.
pub fn get_parser(file: &SourceFile, ignore_patterns: &Vec<String>) -> (r: Option<SelectedParser>)
    ensures
        r == parser_choice(*file, ignore_patterns@),
        is_ignored(*file, ignore_patterns@) ==> r is None,
        file.extension is None ==> r is None,
        r is Some ==> !is_ignored(*file, ignore_patterns@) && (file.extension matches Some(ext)
            && r == parser_for(ext@)),
{
    let ac = match ac_new(ignore_patterns) {
        Ok(ac) => ac,
        Err(_) => {
            return None;
        },
    };
    if ac_is_match(&ac, file.path.as_str()) {
        return None;
    }
    let extension = match &file.extension {
        Some(ext) => ext,
        None => {
            return None;
        },
    };
    parser_for_extension(extension.as_str())
}

} // verus!
