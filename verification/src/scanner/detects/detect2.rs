use vstd::prelude::*;
use crate::move_ir::bytecode::{code_view, Bytecode, BytecodeV, Operation, OperationV};
use crate::move_ir::data_dependency::{
    get_ubits, is_uint, lookup, spec_is_uint, type_bits, DataDepent, NodeV,
};
use crate::move_ir::generate_bytecode::StacklessBytecodeGenerator;
use crate::move_ir::types::{types_view, Type, TypeV};
use crate::move_ir::u256;
use crate::move_ir::u256::{bit_length, U256};
use crate::move_ir::utils::get_function_name;
use crate::move_ir::data_dependency::type_max;
use crate::move_ir::node_bounds::within;
use crate::scanner::detects::common::{any_below, lemma_any_below_more};
use vstd::arithmetic::power2::{lemma2_to64, lemma_pow2_adds, lemma_pow2_unfold, pow2};

verus! {

/// A value of at most `a` shifted left by up to `b` places may not fit in
/// `n` bits: the significant bits of `a` and the shift together exceed
/// `n`.
pub open spec fn shift_exceeds(a: nat, b: nat, n: nat) -> bool {
    bit_length(a) + b > n
}

/// The instruction shifts left into an integer, both operands have a
/// bound, and by the bounds the result may not fit the type of the
/// destination.
pub open spec fn shl_overflows(table: Seq<Option<NodeV>>, types: Seq<TypeV>, bc: BytecodeV) -> bool {
    &&& bc matches BytecodeV::Call(_, dsts, OperationV::Shl, srcs, _)
    &&& srcs.len() >= 2
    &&& dsts.len() >= 1
    &&& dsts[0] < types.len()
    &&& spec_is_uint(types[dsts[0] as int])
    &&& lookup(table, srcs[0]) matches Some(a)
    &&& a.max matches Some(a_max)
    &&& lookup(table, srcs[1]) matches Some(b)
    &&& b.max matches Some(b_max)
    &&& shift_exceeds(a_max, b_max, type_bits(types[dsts[0] as int]))
}

/// Some instruction of `code` is a shift that may overflow.
pub open spec fn has_overflow(table: Seq<Option<NodeV>>, types: Seq<TypeV>, code: Seq<BytecodeV>) -> bool {
    any_below(code.len(), |k: int| shl_overflows(table, types, code[k]))
}

fn bound_of(dd: &DataDepent, t: usize) -> (r: Option<U256>)
    ensures
        match r {
            Some(x) => lookup(dd@, t) matches Some(n) && n.max == Some(x@),
            None => !(lookup(dd@, t) matches Some(n) && n.max is Some),
        },
{
    broadcast use crate::move_ir::data_dependency::lemma_node_view;

    if t < dd.data.len() {
        match &dd.data[t] {
            Some(node) => node.max,
            None => None,
        }
    } else {
        None
    }
}

fn shift_exceeds_exec(a: U256, b: U256, n: u32) -> (r: bool)
    requires
        n <= 256,
    ensures
        r == shift_exceeds(a@, b@, n as nat),
{
    let zeros = u256::leading_zeros(a);
    if b.hi != 0 || b.lo > 256 {
        true
    } else {
        let bits: u64 = 256 - zeros as u64;
        bits + b.lo as u64 > n as u64
    }
}

fn shl_overflows_exec(dd: &DataDepent, types: &Vec<Type>, bc: &Bytecode) -> (r: bool)
    ensures
        r == shl_overflows(dd@, types_view(types@), bc@),
{
    match bc {
        Bytecode::Call(_, dsts, op, srcs, _) => match op {
            Operation::Shl => {
                if srcs.len() >= 2 && dsts.len() >= 1 && dsts[0] < types.len() {
                    let ty = &types[dsts[0]];
                    if !is_uint(ty) {
                        return false;
                    }
                    match (bound_of(dd, srcs[0]), bound_of(dd, srcs[1])) {
                        (Some(a), Some(b)) => shift_exceeds_exec(a, b, get_ubits(ty)),
                        _ => false,
                    }
                } else {
                    false
                }
            },
            _ => false,
        },
        _ => false,
    }
}

/// The finding of the overflow detector for the function at place `idx`:
/// its name, where one of its shifts may overflow.
#[verifier::loop_isolation(false)]
pub fn detect_overflow(stbgr: &StacklessBytecodeGenerator, idx: usize) -> (r: Option<String>)
    requires
        stbgr.wf(),
        idx < stbgr.module.function_defs@.len(),
        idx < stbgr.functions@.len(),
        idx < stbgr.data_dependency@.len(),
    ensures
        r is Some <==> has_overflow(
            stbgr.data_dependency@[idx as int]@,
            types_view(stbgr.functions@[idx as int].local_types@),
            code_view(stbgr.functions@[idx as int].code@),
        ),
        r matches Some(s) ==> s@ == stbgr.spec_function_name(idx as int),
{
    let function = &stbgr.functions[idx];
    let dd = &stbgr.data_dependency[idx];
    let ghost cv = code_view(function.code@);
    let ghost tv = types_view(function.local_types@);
    let ghost f = |k: int| shl_overflows(dd@, tv, cv[k]);
    let mut k: usize = 0;
    while k < function.code.len()
        invariant
            k <= function.code.len(),
            cv == code_view(function.code@),
            tv == types_view(function.local_types@),
            f == (|k: int| shl_overflows(dd@, tv, cv[k])),
            !any_below(k as nat, f),
        decreases function.code.len() - k,
    {
        assert(cv[k as int] == function.code@[k as int]@);
        if shl_overflows_exec(dd, &function.local_types, &function.code[k]) {
            proof {
                assert(f(k as int));
                assert(any_below((k + 1) as nat, f));
                lemma_any_below_more((k + 1) as nat, cv.len(), f);
            }
            return Some(get_function_name(idx, stbgr));
        }
        k += 1;
    }
    None
}

/// The detector of shifts that may overflow.
pub struct Detector2<'a> {
    pub packages: &'a crate::move_ir::packages::Packages<'a>,
    pub content: crate::scanner::result::DetectContent,
}

impl<'a> crate::scanner::detectors::AbstractDetector<'a> for Detector2<'a> {
    open spec fn package(&self) -> &'a crate::move_ir::packages::Packages<'a> {
        self.packages
    }

    open spec fn found(&self) -> &crate::scanner::result::DetectContent {
        &self.content
    }

    open spec fn class() -> crate::scanner::result::DetectKind {
        crate::scanner::result::DetectKind::Overflow
    }

    fn new(packages: &'a crate::move_ir::packages::Packages<'a>) -> (r: Self) {
        Self {
            packages,
            content: crate::scanner::result::DetectContent::new(
                crate::scanner::result::Severity::Minor,
                crate::scanner::result::DetectKind::Overflow,
            ),
        }
    }

    fn run(&mut self) -> (r: &crate::scanner::result::DetectContent) {
        self.content.result = crate::scanner::detects::common::run_detector(
            crate::scanner::result::DetectKind::Overflow,
            self.packages,
        );
        &self.content
    }
}

/// A value below `2^n` has at most `n` significant bits.
pub proof fn lemma_bit_length_within(a: nat, n: nat)
    requires
        a < pow2(n),
    ensures
        bit_length(a) <= n,
    decreases n,
{
    if a > 0 {
        if n == 0 {
            lemma2_to64();
        } else {
            lemma_pow2_unfold(n);
            lemma_bit_length_within(a / 2, (n - 1) as nat);
        }
    }
}

/// The largest value of an unsigned integer type is one less than two to
/// the number of its bits.
pub proof fn lemma_type_max_pow2(ty: TypeV)
    requires
        spec_is_uint(ty),
    ensures
        type_max(ty) == Some((pow2(type_bits(ty)) - 1) as nat),
{
    lemma2_to64();
    lemma_pow2_adds(64, 64);
    lemma_pow2_adds(128, 128);
    assert(0x1_0000_0000_0000_0000nat * 0x1_0000_0000_0000_0000nat
        == 0x1_0000_0000_0000_0000_0000_0000_0000_0000nat) by (nonlinear_arith);
    assert(0x1_0000_0000_0000_0000_0000_0000_0000_0000nat
        * 0x1_0000_0000_0000_0000_0000_0000_0000_0000nat == u256::two_256())
        by (nonlinear_arith);
}

/// A shift by a constant zero of a value whose bound is within the type of
/// the result is never reported.
pub proof fn lemma_shift_by_zero(table: Seq<Option<NodeV>>, types: Seq<TypeV>, bc: BytecodeV)
    requires
        bc matches BytecodeV::Call(_, dsts, OperationV::Shl, srcs, _) && srcs.len() >= 2
            && dsts.len() >= 1 && dsts[0] < types.len() && (lookup(table, srcs[1]) matches Some(b)
            && b.max == Some(0nat)) && (lookup(table, srcs[0]) matches Some(a) ==> within(
            a.max,
            types[dsts[0] as int],
        )),
    ensures
        !shl_overflows(table, types, bc),
{
    if shl_overflows(table, types, bc) {
        let ty = types[bc->Call_1[0] as int];
        let a = lookup(table, bc->Call_3[0])->0.max->0;
        lemma_type_max_pow2(ty);
        vstd::arithmetic::power2::lemma_pow2_pos(type_bits(ty));
        assert(lookup(table, bc->Call_3[0]) is Some);
        assert(within(Some(a), ty));
        assert(a <= type_max(ty)->0);
        lemma_bit_length_within(a, type_bits(ty));
    }
}

} // verus!
