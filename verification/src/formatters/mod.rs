//! How an out of sync comment is reported.
use vstd::prelude::*;
use crate::formatters::porcelain::PorcelainFormatter;
use crate::formatters::single_line::SingleLineFormatter;
use crate::formatters::terminal::{terminal_text, TerminalFormatter};
use crate::parsers::types::{SourceFile, SymbolSpan};
use crate::text::{decimal, decimal_string, push_char};

pub mod porcelain;
pub mod single_line;
pub mod terminal;

verus! {

/// Writes the report of one out of sync comment; what it gives back is the
/// text to print.
pub trait Formatter {
    /// The reports this formatter can write, for a function and a file.
    spec fn accepts(&self, function: SymbolSpan, file: SourceFile) -> bool;

    fn output(
        &self,
        function: &SymbolSpan,
        comment: &SymbolSpan,
        file: &SourceFile,
        language: &str,
        time_diff: &String,
        commit_diff: &usize,
    ) -> (text: String)
        requires
            self.accepts(*function, *file),
    ;
}

/// The fields of a report for machines, each after the one before and a
/// `sep`: how long ago the comment changed, how many commits ago, the
/// file's path, its name, and the comment's first and last lines.
pub open spec fn record_text(
    sep: char,
    time_diff: Seq<char>,
    commit_diff: usize,
    path: Seq<char>,
    name: Seq<char>,
    comment: SymbolSpan,
) -> Seq<char> {
    time_diff + seq![sep] + decimal(commit_diff as nat) + seq![sep] + path + seq![sep] + name
        + seq![sep] + decimal(comment.start.line as nat) + seq![sep] + decimal(
        comment.end.line as nat,
    )
}

/// Appends `n` in decimal.
pub fn append_number(s: &mut String, n: usize)
    ensures
        final(s)@ == old(s)@ + decimal(n as nat),
{
    let number = decimal_string(n as u128);
    s.append(number.as_str());
}

/// The report for machines, its fields joined by `sep`.
pub fn record(
    sep: char,
    time_diff: &String,
    commit_diff: usize,
    path: &String,
    name: &String,
    comment: &SymbolSpan,
) -> (text: String)
    ensures
        text@ == record_text(sep, time_diff@, commit_diff, path@, name@, *comment),
{
    let mut text = time_diff.clone();
    push_char(&mut text, sep);
    append_number(&mut text, commit_diff);
    push_char(&mut text, sep);
    text.append(path.as_str());
    push_char(&mut text, sep);
    text.append(name.as_str());
    push_char(&mut text, sep);
    append_number(&mut text, comment.start.line);
    push_char(&mut text, sep);
    append_number(&mut text, comment.end.line);
    text
}

/// The formatter that reports go through.
#[derive(Debug, Clone, Copy, PartialEq, Eq, Structural)]
pub enum SelectedFormatter {
    SingleLine(SingleLineFormatter),
    Terminal(TerminalFormatter),
}

impl Formatter for SelectedFormatter {
    open spec fn accepts(&self, function: SymbolSpan, file: SourceFile) -> bool {
        match self {
            SelectedFormatter::SingleLine(f) => f.accepts(function, file),
            SelectedFormatter::Terminal(f) => f.accepts(function, file),
        }
    }

    fn output(
        &self,
        function: &SymbolSpan,
        comment: &SymbolSpan,
        file: &SourceFile,
        language: &str,
        time_diff: &String,
        commit_diff: &usize,
    ) -> (text: String)
        ensures
            match self {
                SelectedFormatter::SingleLine(_) => text@ == record_text(
                    '\t',
                    time_diff@,
                    *commit_diff,
                    file.path@,
                    file.name->0@,
                    *comment,
                ),
                SelectedFormatter::Terminal(_) => text@ == terminal_text(
                    *function,
                    file.path@,
                    time_diff@,
                    *commit_diff,
                ),
            },
    {
        match self {
            SelectedFormatter::SingleLine(f) => f.output(
                function,
                comment,
                file,
                language,
                time_diff,
                commit_diff,
            ),
            SelectedFormatter::Terminal(f) => f.output(
                function,
                comment,
                file,
                language,
                time_diff,
                commit_diff,
            ),
        }
    }
}

/// One line per report for machines (`porcelain`), else reports for people.
pub fn get_formatter(porcelain: &bool) -> (r: SelectedFormatter)
    ensures
        r == if *porcelain {
            SelectedFormatter::SingleLine(SingleLineFormatter)
        } else {
            SelectedFormatter::Terminal(TerminalFormatter)
        },
{
    if *porcelain {
        SelectedFormatter::SingleLine(SingleLineFormatter)
    } else {
        SelectedFormatter::Terminal(TerminalFormatter)
    }
}

} // verus!
