use vstd::prelude::*;
use crate::move_ir::bytecode::{Bytecode, BytecodeV, Constant, ConstantV, Operation};
use crate::move_ir::generate_bytecode::{FunctionInfo, StacklessBytecodeGenerator};
use crate::move_ir::types::{types_view, PrimitiveType, Type, TypeV};
use crate::move_ir::utils::{def_offset, get_def_bytecode, get_function_name};
use crate::scanner::detects::common::{any_below, lemma_any_below_more};
use crate::scanner::detects::detect7::is_primitive;

verus! {

/// The instruction loads `true` or `false`.
pub open spec fn spec_is_ldbool(bc: BytecodeV) -> bool {
    bc matches BytecodeV::Load(_, _, ConstantV::Bool(_))
}

/// The temp `t` has the type `bool`.
pub open spec fn is_bool_temp(types: Seq<TypeV>, t: usize) -> bool {
    t < types.len() && types[t as int] == TypeV::Primitive(PrimitiveType::Bool)
}

/// The instruction yields a `bool`: its destination, of a call the first
/// one, has that type.
pub open spec fn spec_ret_is_bool(bc: BytecodeV, types: Seq<TypeV>) -> bool {
    match bc {
        BytecodeV::Call(_, dsts, _, _, _) => dsts.len() >= 1 && is_bool_temp(types, dsts[0]),
        BytecodeV::Assign(_, dst, _, _) => is_bool_temp(types, dst),
        BytecodeV::Load(_, dst, _) => is_bool_temp(types, dst),
        _ => false,
    }
}

/// The instruction at offset `k` compares, for equality or inequality, a
/// loaded `true` or `false` with what an instruction yielded as a `bool`.
pub open spec fn needless_judgment(function: &FunctionInfo, k: int) -> bool {
    &&& function.code@[k]@ matches BytecodeV::Call(_, _, op, srcs, _)
    &&& (op is Eq || op is Neq)
    &&& srcs.len() >= 2
    &&& def_offset(function, srcs[0], k as usize) matches Some(x)
    &&& def_offset(function, srcs[1], k as usize) matches Some(y)
    &&& {
        let types = types_view(function.local_types@);
        let a = function.code@[x as int]@;
        let b = function.code@[y as int]@;
        (spec_is_ldbool(a) && spec_ret_is_bool(b, types)) || (spec_is_ldbool(b) && spec_ret_is_bool(
            a,
            types,
        ))
    }
}

/// Some comparison of the function is a needless judgment.
pub open spec fn has_needless_judgment(function: &FunctionInfo) -> bool {
    any_below(function.code@.len(), |k: int| needless_judgment(function, k))
}

pub fn is_ldbool(bytecode: &Bytecode) -> (r: bool)
    ensures
        r == spec_is_ldbool(bytecode@),
{
    match bytecode {
        Bytecode::Load(_, _, c) => match c {
            Constant::Bool(_) => true,
            _ => false,
        },
        _ => false,
    }
}

fn is_bool_temp_exec(types: &Vec<Type>, t: usize) -> (r: bool)
    ensures
        r == is_bool_temp(types_view(types@), t),
{
    t < types.len() && is_primitive(&types[t], PrimitiveType::Bool)
}

pub fn ret_is_bool(bytecode: &Bytecode, local_types: &Vec<Type>) -> (r: bool)
    ensures
        r == spec_ret_is_bool(bytecode@, types_view(local_types@)),
{
    match bytecode {
        Bytecode::Call(_, dst, _, _, _) => dst.len() >= 1 && is_bool_temp_exec(local_types, dst[0]),
        Bytecode::Assign(_, dst, _, _) => is_bool_temp_exec(local_types, *dst),
        Bytecode::Load(_, dst, _) => is_bool_temp_exec(local_types, *dst),
        _ => false,
    }
}

fn needless_judgment_exec(function: &FunctionInfo, k: usize) -> (r: bool)
    requires
        k < function.code@.len(),
    ensures
        r == needless_judgment(function, k as int),
{
    match &function.code[k] {
        Bytecode::Call(_, _, op, srcs, _) => {
            let compares = match op {
                Operation::Eq | Operation::Neq => true,
                _ => false,
            };
            if compares && srcs.len() >= 2 {
                match (
                    get_def_bytecode(function, srcs[0], k),
                    get_def_bytecode(function, srcs[1], k),
                ) {
                    (Some(a), Some(b)) => {
                        (is_ldbool(a) && ret_is_bool(b, &function.local_types)) || (is_ldbool(b)
                            && ret_is_bool(a, &function.local_types))
                    },
                    _ => false,
                }
            } else {
                false
            }
        },
        _ => false,
    }
}

/// The finding of the detector of needless judgments for the function at
/// place `idx`: its name, where it compares a `bool` with a loaded `true`
/// or `false`.
#[verifier::loop_isolation(false)]
pub fn detect_unnecessary_bool_judgment(
    function: &FunctionInfo,
    stbgr: &StacklessBytecodeGenerator,
    idx: usize,
) -> (r: Option<String>)
    requires
        stbgr.wf(),
        idx < stbgr.module.function_defs@.len(),
    ensures
        r is Some <==> has_needless_judgment(function),
        r matches Some(s) ==> s@ == stbgr.spec_function_name(idx as int),
{
    let ghost f = |k: int| needless_judgment(function, k);
    let mut k: usize = 0;
    while k < function.code.len()
        invariant
            k <= function.code.len(),
            !any_below(k as nat, f),
        decreases function.code.len() - k,
    {
        if needless_judgment_exec(function, k) {
            proof {
                assert(f(k as int));
                assert(any_below((k + 1) as nat, f));
                lemma_any_below_more((k + 1) as nat, function.code@.len(), f);
            }
            return Some(get_function_name(idx, stbgr));
        }
        k += 1;
    }
    None
}

/// The detector of comparisons of a `bool` with `true` or `false`.
pub struct Detector8<'a> {
    pub packages: &'a crate::move_ir::packages::Packages<'a>,
    pub content: crate::scanner::result::DetectContent,
}

impl<'a> crate::scanner::detectors::AbstractDetector<'a> for Detector8<'a> {
    open spec fn package(&self) -> &'a crate::move_ir::packages::Packages<'a> {
        self.packages
    }

    open spec fn found(&self) -> &crate::scanner::result::DetectContent {
        &self.content
    }

    open spec fn class() -> crate::scanner::result::DetectKind {
        crate::scanner::result::DetectKind::UnnecessaryBoolJudgment
    }

    fn new(packages: &'a crate::move_ir::packages::Packages<'a>) -> (r: Self) {
        Self {
            packages,
            content: crate::scanner::result::DetectContent::new(
                crate::scanner::result::Severity::Minor,
                crate::scanner::result::DetectKind::UnnecessaryBoolJudgment,
            ),
        }
    }

    fn run(&mut self) -> (r: &crate::scanner::result::DetectContent) {
        self.content.result = crate::scanner::detects::common::run_detector(
            crate::scanner::result::DetectKind::UnnecessaryBoolJudgment,
            self.packages,
        );
        &self.content
    }
}

} // verus!
