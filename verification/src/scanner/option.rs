use vstd::prelude::*;
use crate::cli::parser::IR;

verus! {

/// How results are shown on the terminal.
#[derive(Clone, Copy, Debug, PartialEq, Eq, Structural)]
pub enum TerminalFormat {
    /// One block of text for each module.
    Block,
    /// Nothing at all.
    Quiet,
}

/// Where a run reads from and writes to.
pub struct Options {
    /// The directory of sources, where there is one.
    pub sources_path: Option<String>,
    pub bytecode_path: String,
    pub output_path: String,
    pub terminal_format: TerminalFormat,
    pub ir_type: Option<IR>,
}

impl Options {
    /// The terminal format that the flag `none` of the command line asks
    /// for.
    pub fn terminal_format_of(none: bool) -> (r: TerminalFormat)
        ensures
            r == if none {
                TerminalFormat::Quiet
            } else {
                TerminalFormat::Block
            },
    {
        if none {
            TerminalFormat::Quiet
        } else {
            TerminalFormat::Block
        }
    }
}

} // verus!
