use vstd::prelude::*;
use crate::move_ir::bytecode::{AttrId, BytecodeV, ConstantV, OperationV};
use crate::move_ir::data_dependency::{type_max, uint_of};
use crate::move_ir::file_format::MoveBytecode;
use crate::move_ir::bytecode::code_view;
use crate::move_ir::file_format::MoveValue;
use crate::move_ir::generate_bytecode::{init_state, lift_function, source_code, FunctionInfo};
use crate::move_ir::lowering::{ends_in_fallthrough, lower_body, lower_pack, lower_prefix, lower_store, lower_vec_pack, lower_vec_unpack, translate, with_label, LabelMap, LiftCtx, LiftState};
use crate::move_ir::def_use::with_jumps;
use crate::move_ir::types::types_view;
use crate::move_ir::node_bounds::within;
use crate::move_ir::temps::lemma_push_all;
use crate::move_ir::types::TypeV;

verus! {

/// The result of the operation has the type of its left operand, and its
/// bound is taken from that operand.
pub open spec fn keeps_left(op: OperationV) -> bool {
    op is Sub || op is Div || op is Shr || op is Mod
}

/// The result of the operation has no bound: it is a truth value or a
/// struct.
pub open spec fn yields_no_number(op: OperationV) -> bool {
    op.is_comparison() || op is Not || op is Pack
}

/// The instruction is typed as lowering types it: a constant is loaded
/// into a temp that can hold it, and a number into a temp of an unsigned
/// integer type only; a copy or a move is between temps of one type; a
/// difference, a quotient, a right shift and a remainder have the type of
/// their left operand; a comparison, a negation and a packing yield no
/// unsigned integer.
pub open spec fn instr_typed(types: Seq<TypeV>, bc: BytecodeV) -> bool {
    match bc {
        BytecodeV::Load(_, d, c) => d < types.len() && within(uint_of(c), types[d as int]) && (
        type_max(types[d as int]) is Some ==> uint_of(c) is Some),
        BytecodeV::Assign(_, d, s, kind) => kind is Store || (d < types.len() && s < types.len()
            && types[d as int] == types[s as int]),
        BytecodeV::Call(_, dsts, op, srcs, _) => {
            &&& keeps_left(op) ==> dsts.len() >= 1 && srcs.len() >= 2 && dsts[0] < types.len()
                && srcs[0] < types.len() && types[dsts[0] as int] == types[srcs[0] as int]
            &&& yields_no_number(op) && dsts.len() >= 1 ==> dsts[0] < types.len() && type_max(
                types[dsts[0] as int],
            ) is None
        },
        _ => true,
    }
}

pub open spec fn code_typed(code: Seq<BytecodeV>, types: Seq<TypeV>) -> bool {
    forall|k: int| 0 <= k < code.len() ==> instr_typed(types, #[trigger] code[k])
}

/// The state keeps the types `init` of the locals, and, unless it holds
/// more temps than a machine can number, its code is typed.
pub open spec fn typed_state(st: LiftState, init: Seq<TypeV>) -> bool {
    st.types.len() <= usize::MAX ==> {
        &&& init.len() <= st.types.len()
        &&& forall|i: int| 0 <= i < init.len() ==> st.types[i] == init[i]
        &&& code_typed(st.code, st.types)
    }
}

/// The state `s2` holds the types and the code of `st` and more, and what
/// it has more of code is typed.
pub open spec fn extends(st: LiftState, s2: LiftState) -> bool {
    &&& st.types.len() <= s2.types.len()
    &&& forall|i: int| 0 <= i < st.types.len() ==> s2.types[i] == st.types[i]
    &&& st.code.len() <= s2.code.len()
    &&& forall|k: int| 0 <= k < st.code.len() ==> s2.code[k] == st.code[k]
    &&& s2.types.len() <= usize::MAX ==> forall|k: int|
        st.code.len() <= k < s2.code.len() ==> instr_typed(s2.types, #[trigger] s2.code[k])
}

pub proof fn lemma_extends_keeps(st: LiftState, s2: LiftState, init: Seq<TypeV>)
    requires
        typed_state(st, init),
        extends(st, s2),
    ensures
        typed_state(s2, init),
{
    if s2.types.len() <= usize::MAX {
        assert forall|k: int| 0 <= k < s2.code.len() implies instr_typed(
            s2.types,
            #[trigger] s2.code[k],
        ) by {
            if k < st.code.len() {
                assert(instr_typed(st.types, st.code[k]));
                assert(s2.code[k] == st.code[k]);
            }
        }
    }
}

pub proof fn lemma_unary_extends(st: LiftState, a: AttrId, op: OperationV, ty: TypeV)
    requires
        !keeps_left(op),
        yields_no_number(op) ==> type_max(ty) is None,
    ensures
        st.unary(a, op, ty) matches Some(s2) ==> extends(st, s2),
{
}

pub proof fn lemma_binary_extends(st: LiftState, a: AttrId, op: OperationV, ty: TypeV)
    requires
        keeps_left(op) ==> st.stack.len() >= 2 && st.top(1) < st.types.len() && ty
            == st.types[st.top(1) as int],
        yields_no_number(op) ==> type_max(ty) is None,
    ensures
        st.binary(a, op, ty) matches Some(s2) ==> extends(st, s2),
{
}

pub proof fn lemma_consume_extends(st: LiftState, a: AttrId, op: OperationV, n: nat)
    requires
        !keeps_left(op),
    ensures
        st.consume(a, op, n) matches Some(s2) ==> extends(st, s2),
{
}

pub proof fn lemma_invoke_extends(st: LiftState, a: AttrId, op: OperationV, n: nat, tys: Seq<TypeV>)
    requires
        !keeps_left(op),
        !yields_no_number(op),
    ensures
        st.invoke(a, op, n, tys) matches Some(s2) ==> extends(st, s2),
{
    if st.stack.len() >= n {
        lemma_push_all(st.pop(n), tys);
    }
}

pub proof fn lemma_load_extends(st: LiftState, a: AttrId, ty: TypeV, c: ConstantV)
    requires
        within(uint_of(c), ty),
        type_max(ty) is Some ==> uint_of(c) is Some,
    ensures
        st.load(a, ty, c) matches Some(s2) ==> extends(st, s2),
{
}

pub proof fn lemma_store_extends(a: AttrId, st: LiftState, op: OperationV)
    requires
        !keeps_left(op),
    ensures
        lower_store(a, st, op) matches Some(s2) ==> extends(st, s2),
{
}

pub proof fn lemma_pack_extends(ctx: LiftCtx, a: AttrId, st: LiftState, sd: u16, targs: Seq<TypeV>)
    ensures
        lower_pack(ctx, a, st, sd, targs) matches Some(s2) ==> extends(st, s2),
{
}

pub proof fn lemma_vec_pack_extends(ctx: LiftCtx, a: AttrId, st: LiftState, sig: u16, n: u64)
    ensures
        lower_vec_pack(ctx, a, st, sig, n) matches Some(s2) ==> extends(st, s2),
{
}

pub proof fn lemma_vec_unpack_extends(ctx: LiftCtx, a: AttrId, st: LiftState, sig: u16, n: u64)
    ensures
        lower_vec_unpack(ctx, a, st, sig, n) matches Some(s2) ==> extends(st, s2),
{
    if lower_vec_unpack(ctx, a, st, sig, n) is Some {
        let ty = ctx.type_params(sig)[0];
        lemma_push_all(st.pop(1), Seq::new(n as nat, |i: int| ty));
    }
}

/// A constant that a value of the pool is read as fits the type that it
/// is read against.
pub proof fn lemma_translate_fits(ty: TypeV, value: MoveValue)
    ensures
        translate(ty, value) matches Some(c) ==> within(uint_of(c), ty) && (type_max(ty) is Some
            ==> uint_of(c) is Some),
{
}

/// Whatever one of the plain steps pops and pushes, the state it leaves
/// extends the state it found.
proof fn lemma_plain_extends(st: LiftState)
    ensures
        forall|a: AttrId, op: OperationV, ty: TypeV|
            !keeps_left(op) && (yields_no_number(op) ==> type_max(ty) is None) && (
            #[trigger] st.unary(a, op, ty)) is Some ==> extends(
                st,
                st.unary(a, op, ty)->0,
            ),
        forall|a: AttrId, op: OperationV, ty: TypeV|
            (keeps_left(op) ==> st.stack.len() >= 2 && st.top(1) < st.types.len() && ty
                == st.types[st.top(1) as int]) && (yields_no_number(op) ==> type_max(ty) is None)
                && (#[trigger] st.binary(a, op, ty)) is Some ==> extends(
                st,
                st.binary(a, op, ty)->0,
            ),
        forall|a: AttrId, op: OperationV, n: nat|
            !keeps_left(op) && (#[trigger] st.consume(a, op, n)) is Some ==> extends(
                st,
                st.consume(a, op, n)->0,
            ),
        forall|a: AttrId, op: OperationV, n: nat, tys: Seq<TypeV>|
            !keeps_left(op) && !yields_no_number(op) && (#[trigger] st.invoke(a, op, n, tys)) is Some
                ==> extends(
                st,
                st.invoke(a, op, n, tys)->0,
            ),
        forall|a: AttrId, ty: TypeV, c: ConstantV|
            within(uint_of(c), ty) && (type_max(ty) is Some ==> uint_of(c) is Some) && (
            #[trigger] st.load(a, ty, c)) is Some ==> extends(
                st,
                st.load(a, ty, c)->0,
            ),
        forall|a: AttrId, op: OperationV|
            !keeps_left(op) && (#[trigger] lower_store(a, st, op)) is Some ==> extends(
                st,
                lower_store(a, st, op)->0,
            ),
        forall|ctx: LiftCtx, a: AttrId, sd: u16, targs: Seq<TypeV>|
            (#[trigger] lower_pack(ctx, a, st, sd, targs)) is Some ==> extends(
                st,
                lower_pack(ctx, a, st, sd, targs)->0,
            ),
{
    assert forall|a: AttrId, op: OperationV, ty: TypeV|
        !keeps_left(op) && (yields_no_number(op) ==> type_max(ty) is None) && (
        #[trigger] st.unary(a, op, ty)) is Some implies extends(
        st,
        st.unary(a, op, ty)->0,
    ) by {
        lemma_unary_extends(st, a, op, ty);
    }
    assert forall|a: AttrId, op: OperationV, ty: TypeV|
        (keeps_left(op) ==> st.stack.len() >= 2 && st.top(1) < st.types.len() && ty
            == st.types[st.top(1) as int]) && (yields_no_number(op) ==> type_max(ty) is None) && (
        #[trigger] st.binary(a, op, ty)) is Some implies extends(
        st,
        st.binary(a, op, ty)->0,
    ) by {
        lemma_binary_extends(st, a, op, ty);
    }
    assert forall|a: AttrId, op: OperationV, n: nat|
        !keeps_left(op) && (#[trigger] st.consume(a, op, n)) is Some implies extends(
        st,
        st.consume(a, op, n)->0,
    ) by {
        lemma_consume_extends(st, a, op, n);
    }
    assert forall|a: AttrId, op: OperationV, n: nat, tys: Seq<TypeV>|
        !keeps_left(op) && !yields_no_number(op) && (#[trigger] st.invoke(a, op, n, tys)) is Some implies extends(
        st,
        st.invoke(a, op, n, tys)->0,
    ) by {
        lemma_invoke_extends(st, a, op, n, tys);
    }
    assert forall|a: AttrId, ty: TypeV, c: ConstantV|
        within(uint_of(c), ty) && (type_max(ty) is Some ==> uint_of(c) is Some) && (
        #[trigger] st.load(a, ty, c)) is Some implies extends(
        st,
        st.load(a, ty, c)->0,
    ) by {
        lemma_load_extends(st, a, ty, c);
    }
    assert forall|a: AttrId, op: OperationV| !keeps_left(op) && (#[trigger] lower_store(a, st, op)) is Some implies extends(
        st,
        lower_store(a, st, op)->0,
    ) by {
        lemma_store_extends(a, st, op);
    }
    assert forall|ctx: LiftCtx, a: AttrId, sd: u16, targs: Seq<TypeV>|
        (#[trigger] lower_pack(ctx, a, st, sd, targs)) is Some implies extends(
        st,
        lower_pack(ctx, a, st, sd, targs)->0,
    ) by {
        lemma_pack_extends(ctx, a, st, sd, targs);
    }
}

/// Lowering one source instruction keeps the state typed.
pub proof fn lemma_lower_body_typed(
    ctx: LiftCtx,
    labels: LabelMap,
    def_idx: int,
    offset: int,
    bc: MoveBytecode,
    a: AttrId,
    st: LiftState,
    code_len: nat,
)
    requires
        typed_state(st, init_state(ctx, def_idx).types),
        ctx.module.instr_ok(bc, code_len, init_state(ctx, def_idx).types.len()),
    ensures
        lower_body(ctx, labels, def_idx, offset, bc, a, st) matches Some(s2) ==> typed_state(
            s2,
            init_state(ctx, def_idx).types,
        ) && st.types.len() <= s2.types.len(),
{
    let init = init_state(ctx, def_idx).types;
    lemma_plain_extends(st);
    match lower_body(ctx, labels, def_idx, offset, bc, a, st) {
        Some(s2) => {
            match bc {
                MoveBytecode::Branch(t) => {
                    if ends_in_fallthrough(labels, st) {
                        assert(s2.types == st.types);
                        if st.types.len() <= usize::MAX {
                            assert forall|k: int| 0 <= k < s2.code.len() implies instr_typed(
                                s2.types,
                                #[trigger] s2.code[k],
                            ) by {
                                if k < s2.code.len() - 1 {
                                    assert(instr_typed(st.types, st.code[k]));
                                }
                            }
                        }
                    } else {
                        assert(extends(st, s2));
                        lemma_extends_keeps(st, s2, init);
                    }
                },
                MoveBytecode::LdConst(i) => {
                    let c = ctx.module.constant_pool@[i as int];
                    lemma_translate_fits(ctx.globalize(c.type_), c.value);
                    assert(extends(st, s2));
                    lemma_extends_keeps(st, s2, init);
                },
                MoveBytecode::CopyLoc(i) | MoveBytecode::MoveLoc(i) => {
                    if s2.types.len() <= usize::MAX {
                        assert(st.types[i as int] == init[i as int]);
                        assert(init[i as int] == ctx.local_type(def_idx, i as int));
                    }
                    assert(extends(st, s2));
                    lemma_extends_keeps(st, s2, init);
                },
                MoveBytecode::VecPack(sig, n) => {
                    lemma_vec_pack_extends(ctx, a, st, sig, n);
                    lemma_extends_keeps(st, s2, init);
                },
                MoveBytecode::VecUnpack(sig, n) => {
                    lemma_vec_unpack_extends(ctx, a, st, sig, n);
                    lemma_extends_keeps(st, s2, init);
                },
                _ => {
                    assert(extends(st, s2));
                    lemma_extends_keeps(st, s2, init);
                },
            }
        },
        None => {},
    }
}

/// Lowering the first `n` instructions of a function leaves a typed
/// state.
pub proof fn lemma_lower_prefix_typed(ctx: LiftCtx, labels: LabelMap, f: int, n: nat)
    requires
        ctx.module.bounds_ok(),
        0 <= f < ctx.module.function_defs@.len(),
        n <= source_code(ctx, f).len(),
    ensures
        lower_prefix(ctx, labels, f, source_code(ctx, f), n, init_state(ctx, f)) matches Some(st)
            ==> typed_state(st, init_state(ctx, f).types),
    decreases n,
{
    let code = source_code(ctx, f);
    let init = init_state(ctx, f).types;
    if n > 0 {
        lemma_lower_prefix_typed(ctx, labels, f, (n - 1) as nat);
        match lower_prefix(ctx, labels, f, code, (n - 1) as nat, init_state(ctx, f)) {
            Some(st) => {
                let s1 = with_label(labels, n - 1, st);
                assert(extends(st, s1.next_attr()));
                lemma_extends_keeps(st, s1.next_attr(), init);
                assert(ctx.module.function_def_ok(f));
                lemma_lower_body_typed(
                    ctx,
                    labels,
                    f,
                    n - 1,
                    code[n - 1],
                    AttrId(s1.attrs as usize),
                    s1.next_attr(),
                    code.len(),
                );
            },
            None => {},
        }
    }
}

/// Putting jumps before labels keeps the code typed.
pub proof fn lemma_with_jumps_typed(code: Seq<BytecodeV>, n: nat, types: Seq<TypeV>)
    requires
        n <= code.len(),
        code_typed(code, types),
    ensures
        code_typed(with_jumps(code, n), types),
    decreases n,
{
    if n > 0 {
        lemma_with_jumps_typed(code, (n - 1) as nat, types);
        let prev = with_jumps(code, (n - 1) as nat);
        let out = with_jumps(code, n);
        assert forall|k: int| 0 <= k < out.len() implies instr_typed(types, #[trigger] out[k]) by {
            if k < prev.len() {
                assert(out[k] == prev[k]);
            } else if k == out.len() - 1 {
                assert(out[k] == code[n - 1]);
            }
        }
    }
}

/// The lifted code of a function is typed: a constant is loaded into a
/// temp that can hold it, a copy or a move is between temps of one type,
/// and a difference, a quotient, a right shift and a remainder have the
/// type of their left operand.
pub proof fn lemma_lifted_typed(ctx: LiftCtx, f: int, function: FunctionInfo)
    requires
        ctx.module.bounds_ok(),
        0 <= f < ctx.module.function_defs@.len(),
        lift_function(ctx, f) matches Some(l) && function.lifted_code(l),
    ensures
        code_typed(code_view(function.code@), types_view(function.local_types@)),
{
    let code = source_code(ctx, f);
    let labels = LabelMap::build(code, code.len());
    lemma_lower_prefix_typed(ctx, labels, f, code.len());
    let st = lower_prefix(ctx, labels, f, code, code.len(), init_state(ctx, f))->0;
    assert(function.local_types.len() == function.local_types@.len());
    assert(types_view(function.local_types@).len() == function.local_types@.len());
    lemma_with_jumps_typed(st.code, st.code.len(), st.types);
}

} // verus!
