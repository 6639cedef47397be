use vstd::prelude::*;
use crate::scanner::option::Options;

verus! {

pub struct Printer {
    pub options: Options,
}

impl Printer {
    pub fn new(options: Options) -> (r: Self)
        ensures
            r.options == options,
    {
        Self { options }
    }
}

} // verus!
