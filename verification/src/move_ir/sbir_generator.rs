use vstd::prelude::*;

verus! {

/// The chain whose framework a package is built against.
#[derive(Clone, Copy, Debug, PartialEq, Eq, Structural)]
pub enum Blockchain {
    Sui,
    Aptos,
}

} // verus!
