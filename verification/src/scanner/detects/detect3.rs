use vstd::prelude::*;
use vstd::string::StringExecFns;
use crate::move_ir::bytecode::{Bytecode, BytecodeV, Operation, OperationV};
use crate::move_ir::generate_bytecode::{FunctionInfo, StacklessBytecodeGenerator};
use crate::move_ir::types::SymbolPool;
use crate::move_ir::utils::{def_offset, get_def_bytecode, get_function_name};
use crate::scanner::detects::common::{any_below, lemma_any_below_more};

verus! {

pub open spec fn spec_is_div(bc: BytecodeV) -> bool {
    bc matches BytecodeV::Call(_, _, OperationV::Div, _, _)
}

/// The instruction calls a function whose name is exactly `sqrt`.
pub open spec fn spec_is_sqrt(bc: BytecodeV, pool: Seq<Seq<char>>) -> bool {
    bc matches BytecodeV::Call(_, _, OperationV::Function(_, fid, _), _, _) && fid.0.0 < pool.len()
        && pool[fid.0.0 as int] == "sqrt"@
}

/// The temp `sid`, used at offset `k`, is defined by a division or by a
/// call of `sqrt`.
pub open spec fn lossy_operand(
    function: &FunctionInfo,
    pool: Seq<Seq<char>>,
    sid: usize,
    k: usize,
) -> bool {
    match def_offset(function, sid, k) {
        Some(x) => spec_is_div(function.code@[x as int]@) || spec_is_sqrt(
            function.code@[x as int]@,
            pool,
        ),
        None => false,
    }
}

/// The instruction at offset `k` multiplies what a division or a call of
/// `sqrt` yielded.
pub open spec fn loses_precision(function: &FunctionInfo, pool: Seq<Seq<char>>, k: int) -> bool {
    &&& function.code@[k]@ matches BytecodeV::Call(_, _, OperationV::Mul, srcs, _)
    &&& srcs.len() >= 2
    &&& (lossy_operand(function, pool, srcs[0], k as usize) || lossy_operand(
        function,
        pool,
        srcs[1],
        k as usize,
    ))
}

/// Some multiplication of the function loses precision.
pub open spec fn has_precision_loss(function: &FunctionInfo, pool: Seq<Seq<char>>) -> bool {
    any_below(function.code@.len(), |k: int| loses_precision(function, pool, k))
}

pub fn is_div(bytecode: &Bytecode) -> (r: bool)
    ensures
        r == spec_is_div(bytecode@),
{
    match bytecode {
        Bytecode::Call(_, _, op, _, _) => match op {
            Operation::Div => true,
            _ => false,
        },
        _ => false,
    }
}

pub fn is_sqrt(bytecode: &Bytecode, symbol_pool: &SymbolPool) -> (r: bool)
    ensures
        r == spec_is_sqrt(bytecode@, symbol_pool@),
{
    match bytecode {
        Bytecode::Call(_, _, op, _, _) => match op {
            Operation::Function(_, funid, _) => {
                if funid.symbol().0 < symbol_pool.len() {
                    let sqrt = String::from_str("sqrt");
                    *symbol_pool.string(funid.symbol()) == sqrt
                } else {
                    false
                }
            },
            _ => false,
        },
        _ => false,
    }
}

fn lossy_operand_exec(function: &FunctionInfo, symbol_pool: &SymbolPool, sid: usize, k: usize) -> (r:
    bool)
    ensures
        r == lossy_operand(function, symbol_pool@, sid, k),
{
    match get_def_bytecode(function, sid, k) {
        Some(bc) => is_div(bc) || is_sqrt(bc, symbol_pool),
        None => false,
    }
}

fn loses_precision_exec(function: &FunctionInfo, symbol_pool: &SymbolPool, k: usize) -> (r: bool)
    requires
        k < function.code@.len(),
    ensures
        r == loses_precision(function, symbol_pool@, k as int),
{
    match &function.code[k] {
        Bytecode::Call(_, _, op, srcs, _) => match op {
            Operation::Mul => {
                if srcs.len() >= 2 {
                    lossy_operand_exec(function, symbol_pool, srcs[0], k) || lossy_operand_exec(
                        function,
                        symbol_pool,
                        srcs[1],
                        k,
                    )
                } else {
                    false
                }
            },
            _ => false,
        },
        _ => false,
    }
}

/// The finding of the detector of precision loss for the function at
/// place `idx`: its name, where it multiplies the result of a division or
/// of a call of `sqrt`.
#[verifier::loop_isolation(false)]
pub fn detect_precision_loss(
    function: &FunctionInfo,
    stbgr: &StacklessBytecodeGenerator,
    idx: usize,
) -> (r: Option<String>)
    requires
        stbgr.wf(),
        idx < stbgr.module.function_defs@.len(),
    ensures
        r is Some <==> has_precision_loss(function, stbgr.symbol_pool@),
        r matches Some(s) ==> s@ == stbgr.spec_function_name(idx as int),
{
    let ghost f = |k: int| loses_precision(function, stbgr.symbol_pool@, k);
    let mut k: usize = 0;
    while k < function.code.len()
        invariant
            k <= function.code.len(),
            !any_below(k as nat, f),
        decreases function.code.len() - k,
    {
        if loses_precision_exec(function, &stbgr.symbol_pool, k) {
            proof {
                assert(f(k as int));
                assert(any_below((k + 1) as nat, f));
                lemma_any_below_more((k + 1) as nat, function.code@.len(), f);
            }
            return Some(get_function_name(idx, stbgr));
        }
        k += 1;
    }
    None
}

/// A function whose only multiplication takes the result of a call and
/// an operand that no division and no call of `sqrt` yields is reported
/// exactly if the function called is named `sqrt`: `k` is the offset of
/// the multiplication, `x` and `y` those of the instructions that define
/// its operands.
pub proof fn lemma_product_of_call(
    function: &FunctionInfo,
    pool: Seq<Seq<char>>,
    k: usize,
    x: usize,
    y: usize,
)
    requires
        k < function.code@.len(),
        function.code@[k as int]@ matches BytecodeV::Call(_, _, OperationV::Mul, srcs, _)
            && srcs.len() >= 2 && def_offset(function, srcs[0], k) == Some(x) && def_offset(
            function,
            srcs[1],
            k,
        ) == Some(y),
        function.code@[x as int]@ matches BytecodeV::Call(_, _, OperationV::Function(_, _, _), _, _),
        !spec_is_div(function.code@[y as int]@),
        !spec_is_sqrt(function.code@[y as int]@, pool),
        forall|j: int|
            0 <= j < function.code@.len() && j != k ==> !(
            #[trigger] function.code@[j]@ matches BytecodeV::Call(_, _, OperationV::Mul, _, _)),
    ensures
        has_precision_loss(function, pool) <==> spec_is_sqrt(function.code@[x as int]@, pool),
{
    let f = |j: int| loses_precision(function, pool, j);
    crate::scanner::detects::common::lemma_any_below_exists(function.code@.len(), f);
    let srcs = function.code@[k as int]@->Call_3;
    assert(lossy_operand(function, pool, srcs[0], k) == spec_is_sqrt(
        function.code@[x as int]@,
        pool,
    ));
    assert(!lossy_operand(function, pool, srcs[1], k));
    assert(f(k as int) == spec_is_sqrt(function.code@[x as int]@, pool));
    if has_precision_loss(function, pool) {
        let j = choose|j: int| 0 <= j < function.code@.len() && #[trigger] f(j);
        assert(loses_precision(function, pool, j));
        assert(j == k);
    }
}

/// The detector of multiplications that lose precision.
pub struct Detector3<'a> {
    pub packages: &'a crate::move_ir::packages::Packages<'a>,
    pub content: crate::scanner::result::DetectContent,
}

impl<'a> crate::scanner::detectors::AbstractDetector<'a> for Detector3<'a> {
    open spec fn package(&self) -> &'a crate::move_ir::packages::Packages<'a> {
        self.packages
    }

    open spec fn found(&self) -> &crate::scanner::result::DetectContent {
        &self.content
    }

    open spec fn class() -> crate::scanner::result::DetectKind {
        crate::scanner::result::DetectKind::PrecisionLoss
    }

    fn new(packages: &'a crate::move_ir::packages::Packages<'a>) -> (r: Self) {
        Self {
            packages,
            content: crate::scanner::result::DetectContent::new(
                crate::scanner::result::Severity::Minor,
                crate::scanner::result::DetectKind::PrecisionLoss,
            ),
        }
    }

    fn run(&mut self) -> (r: &crate::scanner::result::DetectContent) {
        self.content.result = crate::scanner::detects::common::run_detector(
            crate::scanner::result::DetectKind::PrecisionLoss,
            self.packages,
        );
        &self.content
    }
}

} // verus!
