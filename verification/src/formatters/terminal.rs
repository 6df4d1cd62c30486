//! Reports for people: how long ago, how many commits, where; the lines of
//! the comment and of the code are shown after it.
use vstd::prelude::*;
use crate::formatters::{append_number, Formatter};
use crate::parsers::types::{SourceFile, SymbolSpan};
use crate::text::{decimal, push_char};

verus! {

#[derive(Debug, Clone, Copy, PartialEq, Eq, Structural)]
pub struct TerminalFormatter;

/// How long ago the comment changed; then how many commits ago; then the
/// file, the line before the code's first line, and the code's first
/// character.
pub open spec fn terminal_text(function: SymbolSpan, path: Seq<char>, time_diff: Seq<char>, commit_diff: usize) -> Seq<char> {
    time_diff + seq!['\n'] + decimal(commit_diff as nat) + " commits since update"@ + seq!['\n'] + path
        + seq![':'] + decimal((function.start.line - 1) as nat) + seq![':'] + decimal(
        function.start.character as nat,
    )
}

impl Formatter for TerminalFormatter {
    /// It needs the function's line, counted from 1.
    open spec fn accepts(&self, function: SymbolSpan, file: SourceFile) -> bool {
        function.start.line >= 1
    }

    fn output(
        &self,
        function: &SymbolSpan,
        comment: &SymbolSpan,
        file: &SourceFile,
        language: &str,
        time_diff: &String,
        commit_diff: &usize,
    ) -> (text: String)
        ensures
            text@ == terminal_text(*function, file.path@, time_diff@, *commit_diff),
    {
        let mut text = time_diff.clone();
        push_char(&mut text, '\n');
        append_number(&mut text, *commit_diff);
        text.append(" commits since update");
        push_char(&mut text, '\n');
        text.append(file.path.as_str());
        push_char(&mut text, ':');
        append_number(&mut text, function.start.line - 1);
        push_char(&mut text, ':');
        append_number(&mut text, function.start.character);
        text
    }
}

} // verus!
