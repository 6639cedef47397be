use vstd::prelude::*;
use crate::move_ir::bytecode::{AttrId, ConstantV, OperationV};
use crate::move_ir::file_format::MoveBytecode;
use crate::move_ir::lowering::{
    ends_in_fallthrough, lower_body, lower_pack, lower_store, lower_vec_unpack,
    LabelMap, LiftCtx, LiftState,
};
use crate::move_ir::temps::{defines, lemma_push_all};
use crate::move_ir::types::TypeV;

verus! {

/// The state `s2` has the temps of `st`, and its code writes every temp
/// that the code of `st` writes.
pub open spec fn writes_kept(st: LiftState, s2: LiftState) -> bool {
    &&& st.types.len() <= s2.types.len()
    &&& forall|t: usize, j: int| #[trigger]
        defines(st.code, j, t) ==> exists|x: int| #[trigger] defines(s2.code, x, t)
}

/// The state `s2` has the temps of `st`, and its code begins with the
/// code of `st`.
pub open spec fn code_kept(st: LiftState, s2: LiftState) -> bool {
    &&& st.types.len() <= s2.types.len()
    &&& st.code.len() <= s2.code.len()
    &&& forall|k: int| 0 <= k < st.code.len() ==> #[trigger] s2.code[k] == st.code[k]
}

/// Code that is kept keeps what it writes.
pub proof fn lemma_code_kept(st: LiftState, s2: LiftState)
    requires
        code_kept(st, s2),
    ensures
        writes_kept(st, s2),
{
    assert forall|t: usize, j: int| #[trigger] defines(st.code, j, t) implies exists|x: int| #[trigger]
        defines(s2.code, x, t) by {
        assert(s2.code[j] == st.code[j]);
        assert(defines(s2.code, j, t));
    }
}

/// What is kept twice is kept.
pub proof fn lemma_writes_kept_twice(st: LiftState, s1: LiftState, s2: LiftState)
    requires
        writes_kept(st, s1),
        writes_kept(s1, s2),
    ensures
        writes_kept(st, s2),
{
    assert forall|t: usize, j: int| #[trigger] defines(st.code, j, t) implies exists|x: int| #[trigger]
        defines(s2.code, x, t) by {
        let y = choose|y: int| #[trigger] defines(s1.code, y, t);
        assert(defines(s1.code, y, t));
    }
}

proof fn lemma_invoke_kept(st: LiftState, a: AttrId, op: OperationV, n: nat, tys: Seq<TypeV>)
    ensures
        st.invoke(a, op, n, tys) matches Some(s2) ==> code_kept(st, s2),
{
    if st.stack.len() >= n {
        lemma_push_all(st.pop(n), tys);
    }
}

proof fn lemma_vec_unpack_kept(ctx: LiftCtx, a: AttrId, st: LiftState, sig: u16, n: u64)
    ensures
        lower_vec_unpack(ctx, a, st, sig, n) matches Some(s2) ==> code_kept(st, s2),
{
    if lower_vec_unpack(ctx, a, st, sig, n) is Some {
        let ty = ctx.type_params(sig)[0];
        lemma_push_all(st.pop(1), Seq::new(n as nat, |i: int| ty));
    }
}

/// Whatever one of the plain steps pops and pushes, it keeps the code.
proof fn lemma_plain_kept(st: LiftState)
    ensures
        forall|a: AttrId, op: OperationV, ty: TypeV|
            (#[trigger] st.unary(a, op, ty)) is Some ==> code_kept(st, st.unary(a, op, ty)->0),
        forall|a: AttrId, op: OperationV, ty: TypeV|
            (#[trigger] st.binary(a, op, ty)) is Some ==> code_kept(st, st.binary(a, op, ty)->0),
        forall|a: AttrId, op: OperationV, n: nat|
            (#[trigger] st.consume(a, op, n)) is Some ==> code_kept(st, st.consume(a, op, n)->0),
        forall|a: AttrId, op: OperationV, n: nat, tys: Seq<TypeV>|
            (#[trigger] st.invoke(a, op, n, tys)) is Some ==> code_kept(
                st,
                st.invoke(a, op, n, tys)->0,
            ),
        forall|a: AttrId, ty: TypeV, c: ConstantV|
            (#[trigger] st.load(a, ty, c)) is Some ==> code_kept(st, st.load(a, ty, c)->0),
        forall|a: AttrId, op: OperationV|
            (#[trigger] lower_store(a, st, op)) is Some ==> code_kept(
                st,
                lower_store(a, st, op)->0,
            ),
        forall|ctx: LiftCtx, a: AttrId, sd: u16, targs: Seq<TypeV>|
            (#[trigger] lower_pack(ctx, a, st, sd, targs)) is Some ==> code_kept(
                st,
                lower_pack(ctx, a, st, sd, targs)->0,
            ),
{
    assert forall|a: AttrId, op: OperationV, n: nat, tys: Seq<TypeV>|
        (#[trigger] st.invoke(a, op, n, tys)) is Some implies code_kept(
        st,
        st.invoke(a, op, n, tys)->0,
    ) by {
        lemma_invoke_kept(st, a, op, n, tys);
    }
}

/// Lowering one source instruction keeps what the code writes, and
/// lowering a store to a local writes that local.
pub proof fn lemma_lower_body_kept(
    ctx: LiftCtx,
    labels: LabelMap,
    def_idx: int,
    offset: int,
    bc: MoveBytecode,
    a: AttrId,
    st: LiftState,
)
    ensures
        lower_body(ctx, labels, def_idx, offset, bc, a, st) matches Some(s2) ==> writes_kept(
            st,
            s2,
        ) && (bc matches MoveBytecode::StLoc(i) ==> exists|x: int| #[trigger]
            defines(s2.code, x, i as usize)),
{
    lemma_plain_kept(st);
    match lower_body(ctx, labels, def_idx, offset, bc, a, st) {
        Some(s2) => {
            match bc {
                MoveBytecode::Branch(t) => {
                    if ends_in_fallthrough(labels, st) {
                        let n = st.code.len() as int;
                        assert forall|t: usize, j: int| #[trigger]
                            defines(st.code, j, t) implies exists|x: int| #[trigger]
                            defines(s2.code, x, t) by {
                            assert(st.code[n - 2].dsts().len() == 0);
                            assert(st.code[n - 1].dsts().len() == 0);
                            assert(s2.code[j] == st.code[j]);
                            assert(defines(s2.code, j, t));
                        }
                    } else {
                        lemma_code_kept(st, s2);
                    }
                },
                MoveBytecode::StLoc(i) => {
                    let last = s2.code.len() - 1;
                    assert(s2.code[last].dsts()[0] == i as usize);
                    assert(defines(s2.code, last, i as usize));
                    lemma_code_kept(st, s2);
                },
                MoveBytecode::VecUnpack(sig, n) => {
                    lemma_vec_unpack_kept(ctx, a, st, sig, n);
                    lemma_code_kept(st, s2);
                },
                _ => {
                    assert(code_kept(st, s2));
                    lemma_code_kept(st, s2);
                },
            }
        },
        None => {},
    }
}

} // verus!
