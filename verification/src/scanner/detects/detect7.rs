use vstd::prelude::*;
use crate::move_ir::bytecode::{Bytecode, BytecodeV, Operation, OperationV};
use crate::move_ir::generate_bytecode::{FunctionInfo, StacklessBytecodeGenerator};
use crate::move_ir::types::{lemma_type_view, types_view, PrimitiveType, Type, TypeV};
use crate::move_ir::utils::get_function_name;
use crate::scanner::detects::common::{any_below, lemma_any_below_more};

verus! {

/// The integer type that a cast converts to.
pub open spec fn cast_target(op: OperationV) -> Option<PrimitiveType> {
    match op {
        OperationV::CastU8 => Some(PrimitiveType::U8),
        OperationV::CastU16 => Some(PrimitiveType::U16),
        OperationV::CastU32 => Some(PrimitiveType::U32),
        OperationV::CastU64 => Some(PrimitiveType::U64),
        OperationV::CastU128 => Some(PrimitiveType::U128),
        OperationV::CastU256 => Some(PrimitiveType::U256),
        _ => None,
    }
}

/// The instruction casts a temp to the type it has.
pub open spec fn needless_cast(types: Seq<TypeV>, bc: BytecodeV) -> bool {
    &&& bc matches BytecodeV::Call(_, _, op, srcs, _)
    &&& cast_target(op) matches Some(p)
    &&& srcs.len() >= 1
    &&& srcs[0] < types.len()
    &&& types[srcs[0] as int] == TypeV::Primitive(p)
}

/// Some instruction of the function is a needless cast.
pub open spec fn has_needless_cast(function: &FunctionInfo) -> bool {
    any_below(
        function.code@.len(),
        |k: int| needless_cast(types_view(function.local_types@), function.code@[k]@),
    )
}

fn cast_target_exec(op: &Operation) -> (r: Option<PrimitiveType>)
    ensures
        r == cast_target(op@),
{
    match op {
        Operation::CastU8 => Some(PrimitiveType::U8),
        Operation::CastU16 => Some(PrimitiveType::U16),
        Operation::CastU32 => Some(PrimitiveType::U32),
        Operation::CastU64 => Some(PrimitiveType::U64),
        Operation::CastU128 => Some(PrimitiveType::U128),
        Operation::CastU256 => Some(PrimitiveType::U256),
        _ => None,
    }
}

/// Whether `ty` is the primitive type `p`.
pub fn is_primitive(ty: &Type, p: PrimitiveType) -> (r: bool)
    ensures
        r == (ty@ == TypeV::Primitive(p)),
{
    broadcast use lemma_type_view;

    match ty {
        Type::Primitive(q) => *q == p,
        _ => false,
    }
}

fn needless_cast_exec(types: &Vec<Type>, bc: &Bytecode) -> (r: bool)
    ensures
        r == needless_cast(types_view(types@), bc@),
{
    match bc {
        Bytecode::Call(_, _, op, srcs, _) => {
            match cast_target_exec(op) {
                Some(p) => {
                    if srcs.len() >= 1 && srcs[0] < types.len() {
                        is_primitive(&types[srcs[0]], p)
                    } else {
                        false
                    }
                },
                None => false,
            }
        },
        _ => false,
    }
}

/// The finding of the detector of needless casts for the function at
/// place `idx`: its name, where it casts a temp to the type it has.
#[verifier::loop_isolation(false)]
pub fn detect_unnecessary_type_conversion(
    function: &FunctionInfo,
    stbgr: &StacklessBytecodeGenerator,
    idx: usize,
) -> (r: Option<String>)
    requires
        stbgr.wf(),
        idx < stbgr.module.function_defs@.len(),
    ensures
        r is Some <==> has_needless_cast(function),
        r matches Some(s) ==> s@ == stbgr.spec_function_name(idx as int),
{
    let ghost f = |k: int| needless_cast(types_view(function.local_types@), function.code@[k]@);
    let mut k: usize = 0;
    while k < function.code.len()
        invariant
            k <= function.code.len(),
            !any_below(k as nat, f),
        decreases function.code.len() - k,
    {
        if needless_cast_exec(&function.local_types, &function.code[k]) {
            proof {
                assert(f(k as int));
                assert(any_below((k + 1) as nat, f));
                lemma_any_below_more((k + 1) as nat, function.code@.len(), f);
            }
            return Some(get_function_name(idx, stbgr));
        }
        k += 1;
    }
    None
}

/// The detector of casts to the type a value has.
pub struct Detector7<'a> {
    pub packages: &'a crate::move_ir::packages::Packages<'a>,
    pub content: crate::scanner::result::DetectContent,
}

impl<'a> crate::scanner::detectors::AbstractDetector<'a> for Detector7<'a> {
    open spec fn package(&self) -> &'a crate::move_ir::packages::Packages<'a> {
        self.packages
    }

    open spec fn found(&self) -> &crate::scanner::result::DetectContent {
        &self.content
    }

    open spec fn class() -> crate::scanner::result::DetectKind {
        crate::scanner::result::DetectKind::UnnecessaryTypeConversion
    }

    fn new(packages: &'a crate::move_ir::packages::Packages<'a>) -> (r: Self) {
        Self {
            packages,
            content: crate::scanner::result::DetectContent::new(
                crate::scanner::result::Severity::Minor,
                crate::scanner::result::DetectKind::UnnecessaryTypeConversion,
            ),
        }
    }

    fn run(&mut self) -> (r: &crate::scanner::result::DetectContent) {
        self.content.result = crate::scanner::detects::common::run_detector(
            crate::scanner::result::DetectKind::UnnecessaryTypeConversion,
            self.packages,
        );
        &self.content
    }
}

} // verus!
