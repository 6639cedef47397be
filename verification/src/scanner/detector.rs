use vstd::prelude::*;
use crate::cli::parser::Args;
use crate::move_ir::file_format::CompiledModule;
use crate::move_ir::packages::{buildable, Packages};
use crate::scanner::detectors::{is_suite_result, Detectors};
use crate::scanner::result::Result;

verus! {

/// A run of the detectors over one input, with its result.
pub struct Detector {
    pub args: Args,
    pub result: Result,
}

impl Detector {
    pub fn new(args: Args) -> (r: Self)
        ensures
            r.args == args,
            r.result.modules@.len() == 0,
            r.result.total_time == 0,
            r.result.modules_status.pass@.len() == 0,
            r.result.modules_status.wrong@.len() == 0,
    {
        Self { args, result: Result::empty() }
    }

    /// Lifts and analyses the modules `cms`, runs every detector on them
    /// and keeps the result. `false`, with the result as it was, where a
    /// module cannot be lifted or a function cannot be analysed.
    pub fn run(&mut self, cms: &Vec<CompiledModule>, total_time: usize) -> (done: bool)
        ensures
            final(self).args == old(self).args,
            done == buildable(cms@),
            done ==> exists|p: Packages|
                {
                    &&& p.wf()
                    &&& #[trigger] p.lifted_from(cms@, cms@.len())
                    &&& p.analysed()
                    &&& is_suite_result(final(self).result, &p, total_time)
                },
            !done ==> final(self).result == old(self).result,
    {
        let mut args = Args {
            path: String::new(),
            output: None,
            none: false,
            json: false,
            ir_type: None,
        };
        std::mem::swap(&mut self.args, &mut args);
        let mut suite = Detectors::new(args);
        let done = suite.try_run(cms, total_time);
        self.args = suite.args;
        if done {
            self.result = suite.result;
        }
        done
    }
}

} // verus!
