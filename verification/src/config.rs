//! The settings of a run.
use vstd::prelude::*;
use crate::formatters::{get_formatter, SelectedFormatter};
use crate::formatters::single_line::SingleLineFormatter;
use crate::formatters::terminal::TerminalFormatter;

verus! {

/// Whether output is meant for machines (`porcelain`).
#[derive(Debug, Clone, Copy, PartialEq, Eq, Structural)]
pub struct Config {
    pub porcelain: bool,
}

impl Config {
    pub fn new(porcelain: bool) -> (c: Self)
        ensures
            c.porcelain == porcelain,
    {
        return Config { porcelain: porcelain };
    }

    /// The formatter for machine (`porcelain`) or for human readers.
    pub fn get_formatter(&self, porcelain: &bool) -> (r: SelectedFormatter)
        ensures
            r == if *porcelain {
                SelectedFormatter::SingleLine(SingleLineFormatter)
            } else {
                SelectedFormatter::Terminal(TerminalFormatter)
            },
    {
        get_formatter(porcelain)
    }
}

} // verus!
