use vstd::prelude::*;

verus! {

/// The form in which the printer renders a module.
#[derive(Clone, Copy, Debug, PartialEq, Eq, Structural)]
pub enum IR {
    /// Stackless bytecode.
    SB,
    /// The compiled module.
    CM,
    /// Control-flow graphs.
    CFG,
    /// Definitions and uses of temps.
    DU,
    /// Function signatures.
    FS,
    /// The call graph.
    CG,
}

#[derive(Clone, Copy, Debug, PartialEq, Eq, Structural)]
pub enum SubCommands {
    Printer,
    Detector,
}

/// What the command line asks for.
pub struct Args {
    /// Path to the input directory or file.
    pub path: String,
    /// Path to the output file.
    pub output: Option<String>,
    /// Print nothing on the terminal.
    pub none: bool,
    /// Print the result as JSON on the terminal.
    pub json: bool,
    pub ir_type: Option<IR>,
}

pub struct Cli {
    pub command: Option<SubCommands>,
    pub args: Args,
}

} // verus!
