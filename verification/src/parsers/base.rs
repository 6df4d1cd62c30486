//! The first interface of the parsers, which read the text of a file.
use vstd::prelude::*;
use crate::ignore::{ac_builds, ac_is_match, ac_new, pattern_bytes};
use crate::parsers::rust::parser::RsParser;
use crate::parsers::types::{SourceFile, SymbolSpan};
use crate::parsers::is_ignored;
use crate::scan::str_eq;

verus! {

/// Finds the comment and symbol pairs of a source text: in each pair, the
/// range of the comment, then the range of the symbol below it.
pub trait Parser {
    fn parse(&self, file_input: &str) -> Vec<(SymbolSpan, SymbolSpan)>;
}

/// The parser for a file: only Rust files (`rs`) have one, and none when one
/// of the ignore patterns occurs in the file's path.
pub fn get_parser(file: &SourceFile, ignore_patterns: &Vec<String>) -> (r: Option<RsParser>)
    ensures
        r == if !ac_builds(pattern_bytes(ignore_patterns@)) || is_ignored(*file, ignore_patterns@) {
            None
        } else if file.extension matches Some(ext) && ext@ == seq!['r', 's'] {
            Some(RsParser)
        } else {
            None
        },
        is_ignored(*file, ignore_patterns@) ==> r is None,
        r is Some ==> !is_ignored(*file, ignore_patterns@) && (file.extension matches Some(ext)
            && ext@ == seq!['r', 's']),
        !(file.extension matches Some(ext) && ext@ == seq!['r', 's']) ==> r is None,
{
    proof {
        reveal_strlit("rs");
        assert("rs"@ =~= seq!['r', 's']);
    }
    let ac = match ac_new(ignore_patterns) {
        Ok(ac) => ac,
        Err(_) => {
            return None;
        },
    };
    if ac_is_match(&ac, file.path.as_str()) {
        return None;
    }
    let extension = match &file.extension {
        Some(ext) => ext,
        None => {
            return None;
        },
    };
    if str_eq(extension.as_str(), "rs") {
        Some(RsParser)
    } else {
        None
    }
}

} // verus!
