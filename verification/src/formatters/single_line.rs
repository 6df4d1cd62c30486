//! Reports for machines, one line each, fields separated by tabs.
use vstd::prelude::*;
use crate::formatters::{record, record_text, Formatter};
use crate::parsers::types::{SourceFile, SymbolSpan};

verus! {

#[derive(Debug, Clone, Copy, PartialEq, Eq, Structural)]
pub struct SingleLineFormatter;

impl Formatter for SingleLineFormatter {
    /// It needs the file's name.
    open spec fn accepts(&self, function: SymbolSpan, file: SourceFile) -> bool {
        file.name is Some
    }

    fn output(
        &self,
        function: &SymbolSpan,
        comment: &SymbolSpan,
        file: &SourceFile,
        language: &str,
        time_diff: &String,
        commit_diff: &usize,
    ) -> (text: String)
        ensures
            text@ == record_text('\t', time_diff@, *commit_diff, file.path@, file.name->0@, *comment),
    {
        let file_name = match &file.name {
            Some(name) => name,
            None => {
                return String::new();
            },
        };
        record('\t', time_diff, *commit_diff, &file.path, file_name, comment)
    }
}

} // verus!
