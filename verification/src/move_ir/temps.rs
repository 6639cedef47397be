use vstd::prelude::*;
use crate::move_ir::bytecode::{code_view, AssignKind, AttrId, BytecodeV, ConstantV, OperationV};
use crate::move_ir::def_use::{def_offsets, def_table, hits, with_jumps};
use crate::move_ir::file_format::MoveBytecode;
use crate::move_ir::generate_bytecode::{init_state, lift_function, source_code, FunctionInfo};
use crate::move_ir::kept_writes::{code_kept, lemma_code_kept, lemma_lower_body_kept, lemma_writes_kept_twice};
use crate::move_ir::lowering::{call, lower_body, lower_branch, lower_jump, lower_pack, lower_prefix, lower_store, lower_vec_pack, lower_vec_unpack, with_label, LabelMap, LiftCtx, LiftState};
use crate::move_ir::types::{types_view, TypeV};

verus! {

/// The instruction at `j` writes the temp `t`.
pub open spec fn defines(code: Seq<BytecodeV>, j: int, t: usize) -> bool {
    0 <= j < code.len() && code[j].dsts().contains(t)
}

/// The temp `t` is a local, or an instruction before `k` writes it.
pub open spec fn defined_before(code: Seq<BytecodeV>, t: usize, k: int, locals: nat) -> bool {
    t < locals || exists|j: int| j < k && #[trigger] defines(code, j, t)
}

/// Every temp that the instruction at `k` names is one of the first
/// `n_ty`, and every temp that it reads is a local or written before.
pub open spec fn temps_sound(code: Seq<BytecodeV>, k: int, n_ty: nat, locals: nat) -> bool {
    let bc = code[k];
    &&& forall|i: int| 0 <= i < bc.dsts().len() ==> (#[trigger] bc.dsts()[i]) < n_ty
    &&& forall|i: int|
        0 <= i < bc.srcs().len() ==> (#[trigger] bc.srcs()[i]) < n_ty && defined_before(
            code,
            bc.srcs()[i],
            k,
            locals,
        )
}

pub open spec fn code_sound(code: Seq<BytecodeV>, n_ty: nat, locals: nat) -> bool {
    forall|k: int| 0 <= k < code.len() ==> #[trigger] temps_sound(code, k, n_ty, locals)
}

/// The temp `t` may stand on the stack: it has a type, and it is a local
/// or written by the code so far.
pub open spec fn held(st: LiftState, t: usize, locals: nat) -> bool {
    t < st.types.len() && defined_before(st.code, t, st.code.len() as int, locals)
}

/// What lowering keeps: the code so far is sound, and so is every temp on
/// the stack.
pub open spec fn state_sound(st: LiftState, locals: nat) -> bool {
    &&& locals <= st.types.len()
    &&& code_sound(st.code, st.types.len(), locals)
    &&& forall|i: int| 0 <= i < st.stack.len() ==> held(st, #[trigger] st.stack[i], locals)
}

/// The temp `t` is a local, was on the stack of `st`, is written by the
/// code of `st`, or is written by an instruction that `s2` has more than
/// `st`, before `k`.
pub open spec fn given(st: LiftState, s2: LiftState, t: usize, k: int, locals: nat) -> bool {
    ||| t < locals
    ||| st.stack.contains(t)
    ||| exists|j: int| j < st.code.len() && #[trigger] defines(st.code, j, t)
    ||| exists|j: int| st.code.len() <= j < k && #[trigger] defines(s2.code, j, t)
}

/// The instruction at `k`, which `s2` has more than `st`, writes temps
/// that have a type and reads temps that are given.
pub open spec fn added_ok(st: LiftState, s2: LiftState, k: int, locals: nat) -> bool {
    let bc = s2.code[k];
    &&& forall|i: int| 0 <= i < bc.dsts().len() ==> (#[trigger] bc.dsts()[i]) < s2.types.len()
    &&& forall|i: int| 0 <= i < bc.srcs().len() ==> given(st, s2, #[trigger] bc.srcs()[i], k, locals)
}

/// The state `s2` comes from `st` by more code and more types, and what
/// is new in it is sound.
pub open spec fn grows(st: LiftState, s2: LiftState, locals: nat) -> bool {
    &&& st.code.len() <= s2.code.len()
    &&& forall|k: int| 0 <= k < st.code.len() ==> #[trigger] s2.code[k] == st.code[k]
    &&& st.types.len() <= s2.types.len()
    &&& forall|k: int| st.code.len() <= k < s2.code.len() ==> #[trigger] added_ok(st, s2, k, locals)
    &&& forall|i: int|
        0 <= i < s2.stack.len() ==> given(
            st,
            s2,
            #[trigger] s2.stack[i],
            s2.code.len() as int,
            locals,
        )
}

proof fn lemma_given(st: LiftState, s2: LiftState, t: usize, k: int, locals: nat)
    requires
        state_sound(st, locals),
        st.code.len() <= s2.code.len(),
        forall|k: int| 0 <= k < st.code.len() ==> #[trigger] s2.code[k] == st.code[k],
        st.types.len() <= s2.types.len(),
        st.code.len() <= k <= s2.code.len(),
        forall|j: int| st.code.len() <= j < k ==> #[trigger] added_ok(st, s2, j, locals),
        given(st, s2, t, k, locals),
    ensures
        t < s2.types.len(),
        defined_before(s2.code, t, k, locals),
{
    if t < locals {
    } else if st.stack.contains(t) {
        let i = choose|i: int| 0 <= i < st.stack.len() && st.stack[i] == t;
        assert(held(st, st.stack[i], locals));
        let j = choose|j: int| j < st.code.len() && #[trigger] defines(st.code, j, t);
        assert(s2.code[j] == st.code[j]);
        assert(defines(s2.code, j, t));
    } else if exists|j: int| j < st.code.len() && #[trigger] defines(st.code, j, t) {
        let j = choose|j: int| j < st.code.len() && #[trigger] defines(st.code, j, t);
        assert(temps_sound(st.code, j, st.types.len(), locals));
        let i = choose|i: int| 0 <= i < st.code[j].dsts().len() && st.code[j].dsts()[i] == t;
        assert(st.code[j].dsts()[i] < st.types.len());
        assert(s2.code[j] == st.code[j]);
        assert(defines(s2.code, j, t));
    } else {
        let j = choose|j: int| st.code.len() <= j < k && #[trigger] defines(s2.code, j, t);
        assert(added_ok(st, s2, j, locals));
        let i = choose|i: int| 0 <= i < s2.code[j].dsts().len() && s2.code[j].dsts()[i] == t;
        assert(s2.code[j].dsts()[i] < s2.types.len());
    }
}

/// A sound state that grows stays sound.
pub proof fn lemma_grows(st: LiftState, s2: LiftState, locals: nat)
    requires
        state_sound(st, locals),
        grows(st, s2, locals),
    ensures
        state_sound(s2, locals),
{
    assert forall|k: int| 0 <= k < s2.code.len() implies #[trigger] temps_sound(
        s2.code,
        k,
        s2.types.len(),
        locals,
    ) by {
        let bc = s2.code[k];
        if k < st.code.len() {
            assert(temps_sound(st.code, k, st.types.len(), locals));
            assert forall|i: int| 0 <= i < bc.srcs().len() implies defined_before(
                s2.code,
                #[trigger] bc.srcs()[i],
                k,
                locals,
            ) by {
                let t = bc.srcs()[i];
                assert(defined_before(st.code, t, k, locals));
                if t >= locals {
                    let j = choose|j: int| j < k && #[trigger] defines(st.code, j, t);
                    assert(s2.code[j] == st.code[j]);
                    assert(defines(s2.code, j, t));
                }
            }
        } else {
            assert(added_ok(st, s2, k, locals));
            assert forall|i: int| 0 <= i < bc.srcs().len() implies (#[trigger] bc.srcs()[i])
                < s2.types.len() && defined_before(s2.code, bc.srcs()[i], k, locals) by {
                lemma_given(st, s2, bc.srcs()[i], k, locals);
            }
        }
    }
    assert forall|i: int| 0 <= i < s2.stack.len() implies held(
        s2,
        #[trigger] s2.stack[i],
        locals,
    ) by {
        lemma_given(st, s2, s2.stack[i], s2.code.len() as int, locals);
    }
}

/// What `push_all` leaves: the code and the count as they were, one more
/// type and one more temp on the stack for each of `tys`.
pub proof fn lemma_push_all(st: LiftState, tys: Seq<TypeV>)
    ensures
        st.push_all(tys).code == st.code,
        st.push_all(tys).attrs == st.attrs,
        st.push_all(tys).types == st.types + tys,
        st.push_all(tys).stack == st.stack + st.fresh_n(tys.len()),
    decreases tys.len(),
{
    if tys.len() == 0 {
        assert(st.types + tys =~= st.types);
        assert(st.stack + st.fresh_n(0) =~= st.stack);
    } else {
        lemma_push_all(st, tys.drop_last());
        let s1 = st.push_all(tys.drop_last());
        assert(s1.types.push(tys.last()) =~= st.types + tys);
        assert(s1.stack.push(s1.types.len() as usize) =~= st.stack + st.fresh_n(tys.len()));
    }
}

/// One instruction more, from temps of the stack, locals or temps that
/// the code has written to temps that have a type, with a stack of temps
/// that were there or are written by it.
proof fn lemma_one_more(st: LiftState, s2: LiftState, bc: BytecodeV, locals: nat)
    requires
        state_sound(st, locals),
        s2.code == st.code.push(bc),
        st.types.len() <= s2.types.len(),
        forall|i: int| 0 <= i < bc.dsts().len() ==> (#[trigger] bc.dsts()[i]) < s2.types.len(),
        forall|i: int|
            0 <= i < bc.srcs().len() ==> st.stack.contains(#[trigger] bc.srcs()[i])
                || defined_before(st.code, bc.srcs()[i], st.code.len() as int, locals),
        forall|i: int|
            0 <= i < s2.stack.len() ==> st.stack.contains(#[trigger] s2.stack[i])
                || bc.dsts().contains(s2.stack[i]),
    ensures
        state_sound(s2, locals),
{
    let n = st.code.len() as int;
    assert forall|i: int| 0 <= i < s2.stack.len() implies given(
        st,
        s2,
        #[trigger] s2.stack[i],
        s2.code.len() as int,
        locals,
    ) by {
        if !st.stack.contains(s2.stack[i]) {
            assert(defines(s2.code, n, s2.stack[i]));
        }
    }
    assert(added_ok(st, s2, n, locals));
    lemma_grows(st, s2, locals);
}

pub proof fn lemma_unary(st: LiftState, a: AttrId, op: OperationV, ty: TypeV, locals: nat)
    requires
        state_sound(st, locals),
    ensures
        st.unary(a, op, ty) matches Some(s2) ==> state_sound(s2, locals),
{
    if st.stack.len() >= 1 {
        let s2 = st.unary(a, op, ty)->0;
        let bc = call(a, seq![st.fresh()], op, seq![st.top(0)]);
        assert(st.stack.contains(st.top(0)));
        assert forall|i: int| 0 <= i < s2.stack.len() implies st.stack.contains(
            #[trigger] s2.stack[i],
        ) || bc.dsts().contains(s2.stack[i]) by {
            if i < st.stack.len() - 1 {
                assert(s2.stack[i] == st.stack[i]);
            } else {
                assert(bc.dsts()[0] == s2.stack[i]);
            }
        }
        lemma_one_more(st, s2, bc, locals);
    }
}

pub proof fn lemma_binary(st: LiftState, a: AttrId, op: OperationV, ty: TypeV, locals: nat)
    requires
        state_sound(st, locals),
    ensures
        st.binary(a, op, ty) matches Some(s2) ==> state_sound(s2, locals),
{
    if st.stack.len() >= 2 {
        let s2 = st.binary(a, op, ty)->0;
        let bc = call(a, seq![st.fresh()], op, seq![st.top(1), st.top(0)]);
        assert(st.stack.contains(st.top(0)));
        assert(st.stack.contains(st.top(1)));
        assert forall|i: int| 0 <= i < s2.stack.len() implies st.stack.contains(
            #[trigger] s2.stack[i],
        ) || bc.dsts().contains(s2.stack[i]) by {
            if i < st.stack.len() - 2 {
                assert(s2.stack[i] == st.stack[i]);
            } else {
                assert(bc.dsts()[0] == s2.stack[i]);
            }
        }
        lemma_one_more(st, s2, bc, locals);
    }
}

/// The topmost temps are temps of the stack.
proof fn lemma_top_n(st: LiftState, n: nat)
    requires
        n <= st.stack.len(),
    ensures
        forall|i: int| 0 <= i < n ==> st.stack.contains(#[trigger] st.top_n(n)[i]),
        st.top_n(n).len() == n,
{
    assert forall|i: int| 0 <= i < n implies st.stack.contains(#[trigger] st.top_n(n)[i]) by {
        assert(st.top_n(n)[i] == st.stack[st.stack.len() - n + i]);
    }
}

/// What is left of the stack are temps of the stack.
proof fn lemma_pop(st: LiftState, n: nat)
    requires
        n <= st.stack.len(),
    ensures
        forall|i: int| 0 <= i < st.pop(n).stack.len() ==> st.stack.contains(#[trigger] st.pop(n).stack[i]),
{
    assert forall|i: int| 0 <= i < st.pop(n).stack.len() implies st.stack.contains(
        #[trigger] st.pop(n).stack[i],
    ) by {
        assert(st.pop(n).stack[i] == st.stack[i]);
    }
}

pub proof fn lemma_consume(st: LiftState, a: AttrId, op: OperationV, n: nat, locals: nat)
    requires
        state_sound(st, locals),
    ensures
        st.consume(a, op, n) matches Some(s2) ==> state_sound(s2, locals),
{
    if st.stack.len() >= n {
        let s2 = st.consume(a, op, n)->0;
        let bc = call(a, Seq::empty(), op, st.top_n(n));
        lemma_top_n(st, n);
        lemma_pop(st, n);
        lemma_one_more(st, s2, bc, locals);
    }
}

pub proof fn lemma_invoke(
    st: LiftState,
    a: AttrId,
    op: OperationV,
    n: nat,
    tys: Seq<TypeV>,
    locals: nat,
)
    requires
        state_sound(st, locals),
    ensures
        st.invoke(a, op, n, tys) matches Some(s2) ==> state_sound(s2, locals),
{
    if st.stack.len() >= n {
        let s2 = st.invoke(a, op, n, tys)->0;
        let bc = call(a, st.fresh_n(tys.len()), op, st.top_n(n));
        lemma_top_n(st, n);
        lemma_pop(st, n);
        lemma_push_all(st.pop(n), tys);
        assert(st.pop(n).fresh_n(tys.len()) == st.fresh_n(tys.len()));
        assert forall|i: int| 0 <= i < s2.stack.len() implies st.stack.contains(
            #[trigger] s2.stack[i],
        ) || bc.dsts().contains(s2.stack[i]) by {
            if i < st.stack.len() - n {
                assert(s2.stack[i] == st.pop(n).stack[i]);
            } else {
                assert(bc.dsts()[i - (st.stack.len() - n)] == s2.stack[i]);
            }
        }
        lemma_one_more(st, s2, bc, locals);
    }
}

pub proof fn lemma_load(st: LiftState, a: AttrId, ty: TypeV, c: ConstantV, locals: nat)
    requires
        state_sound(st, locals),
    ensures
        st.load(a, ty, c) matches Some(s2) ==> state_sound(s2, locals),
{
    let s2 = st.load(a, ty, c)->0;
    let bc = BytecodeV::Load(a, st.fresh(), c);
    assert forall|i: int| 0 <= i < s2.stack.len() implies st.stack.contains(
        #[trigger] s2.stack[i],
    ) || bc.dsts().contains(s2.stack[i]) by {
        if i < st.stack.len() {
            assert(s2.stack[i] == st.stack[i]);
        } else {
            assert(bc.dsts()[0] == s2.stack[i]);
        }
    }
    lemma_one_more(st, s2, bc, locals);
}

/// A new temp that takes or borrows the local `i`.
proof fn lemma_from_local(st: LiftState, bc: BytecodeV, ty: TypeV, i: usize, locals: nat)
    requires
        state_sound(st, locals),
        defined_before(st.code, i, st.code.len() as int, locals),
        bc.dsts() == seq![st.fresh()],
        bc.srcs() == seq![i],
    ensures
        state_sound(st.push_fresh(ty).emit(bc), locals),
{
    let s2 = st.push_fresh(ty).emit(bc);
    assert forall|x: int| 0 <= x < s2.stack.len() implies st.stack.contains(
        #[trigger] s2.stack[x],
    ) || bc.dsts().contains(s2.stack[x]) by {
        if x < st.stack.len() {
            assert(s2.stack[x] == st.stack[x]);
        } else {
            assert(bc.dsts()[0] == s2.stack[x]);
        }
    }
    lemma_one_more(st, s2, bc, locals);
}

/// An instruction that only reads temps of the stack, which it takes off.
proof fn lemma_reads(st: LiftState, bc: BytecodeV, n: nat, locals: nat)
    requires
        state_sound(st, locals),
        n <= st.stack.len(),
        bc.dsts().len() == 0,
        forall|i: int| 0 <= i < bc.srcs().len() ==> st.stack.contains(#[trigger] bc.srcs()[i]),
    ensures
        state_sound(st.pop(n).emit(bc), locals),
{
    lemma_pop(st, n);
    lemma_one_more(st, st.pop(n).emit(bc), bc, locals);
}

pub proof fn lemma_branch(
    labels: LabelMap,
    a: AttrId,
    st: LiftState,
    then_offset: int,
    else_offset: int,
    locals: nat,
)
    requires
        state_sound(st, locals),
    ensures
        lower_branch(labels, a, st, then_offset, else_offset) matches Some(s2) ==> state_sound(
            s2,
            locals,
        ),
{
    if lower_branch(labels, a, st, then_offset, else_offset) is Some {
        let bc = BytecodeV::Branch(
            a,
            labels.at[then_offset]->0,
            labels.at[else_offset]->0,
            st.top(0),
        );
        assert(st.stack.contains(st.top(0)));
        lemma_reads(st, bc, 1, locals);
    }
}

pub proof fn lemma_jump(labels: LabelMap, a: AttrId, st: LiftState, target: int, locals: nat)
    requires
        state_sound(st, locals),
    ensures
        lower_jump(labels, a, st, target) matches Some(s2) ==> state_sound(s2, locals),
{
    if lower_jump(labels, a, st, target) is Some {
        let s2 = lower_jump(labels, a, st, target)->0;
        if crate::move_ir::lowering::ends_in_fallthrough(labels, st) {
            let n = st.code.len() as int;
            assert forall|t: usize, k: int|
                n - 2 <= k <= n && defined_before(st.code, t, k, locals) implies defined_before(
                s2.code,
                t,
                n - 2,
                locals,
            ) by {
                if t >= locals {
                    let j = choose|j: int| j < k && #[trigger] defines(st.code, j, t);
                    assert(j < n - 2);
                    assert(s2.code[j] == st.code[j]);
                    assert(defines(s2.code, j, t));
                }
            }
            assert forall|k: int| 0 <= k < s2.code.len() implies #[trigger] temps_sound(
                s2.code,
                k,
                s2.types.len(),
                locals,
            ) by {
                let bc = s2.code[k];
                assert(temps_sound(st.code, k, st.types.len(), locals));
                if k < n - 2 {
                    assert(bc == st.code[k]);
                } else {
                    assert(bc.srcs() =~= st.code[k].srcs());
                    assert(bc.dsts() =~= st.code[k].dsts());
                }
                assert forall|i: int| 0 <= i < bc.srcs().len() implies defined_before(
                    s2.code,
                    #[trigger] bc.srcs()[i],
                    k,
                    locals,
                ) by {
                    let t = bc.srcs()[i];
                    assert(t == st.code[k].srcs()[i]);
                    assert(defined_before(st.code, t, k, locals));
                    if t >= locals {
                        let j = choose|j: int| j < k && #[trigger] defines(st.code, j, t);
                        assert(s2.code[j] == st.code[j]);
                        assert(defines(s2.code, j, t));
                    }
                }
            }
            assert forall|i: int| 0 <= i < s2.stack.len() implies held(
                s2,
                #[trigger] s2.stack[i],
                locals,
            ) by {
                assert(held(st, st.stack[i], locals));
                let t = st.stack[i];
                if t >= locals {
                    let j = choose|j: int| j < n && #[trigger] defines(st.code, j, t);
                    assert(j < n - 2);
                    assert(s2.code[j] == st.code[j]);
                    assert(defines(s2.code, j, t));
                }
            }
        } else {
            let bc = BytecodeV::Jump(a, labels.at[target]->0);
            assert(st.pop(0).stack =~= st.stack);
            lemma_reads(st, bc, 0, locals);
        }
    }
}

pub proof fn lemma_store(a: AttrId, st: LiftState, op: OperationV, locals: nat)
    requires
        state_sound(st, locals),
    ensures
        lower_store(a, st, op) matches Some(s2) ==> state_sound(s2, locals),
{
    if st.stack.len() >= 2 {
        let bc = call(a, Seq::empty(), op, seq![st.top(0), st.top(1)]);
        assert(st.stack.contains(st.top(0)));
        assert(st.stack.contains(st.top(1)));
        lemma_reads(st, bc, 2, locals);
    }
}

pub proof fn lemma_pack(
    ctx: LiftCtx,
    a: AttrId,
    st: LiftState,
    sd: u16,
    targs: Seq<TypeV>,
    locals: nat,
)
    requires
        state_sound(st, locals),
    ensures
        lower_pack(ctx, a, st, sd, targs) matches Some(s2) ==> state_sound(s2, locals),
{
    if lower_pack(ctx, a, st, sd, targs) is Some {
        let n = ctx.module.struct_defs@[sd as int].spec_declared_field_count()->0;
        let s2 = lower_pack(ctx, a, st, sd, targs)->0;
        let bc = s2.code.last();
        lemma_top_n(st, n);
        lemma_pop(st, n);
        assert forall|i: int| 0 <= i < s2.stack.len() implies st.stack.contains(
            #[trigger] s2.stack[i],
        ) || bc.dsts().contains(s2.stack[i]) by {
            if i < st.stack.len() - n {
                assert(s2.stack[i] == st.pop(n).stack[i]);
            } else {
                assert(bc.dsts()[0] == s2.stack[i]);
            }
        }
        lemma_one_more(st, s2, bc, locals);
    }
}

pub proof fn lemma_vec_pack(ctx: LiftCtx, a: AttrId, st: LiftState, sig: u16, n: u64, locals: nat)
    requires
        state_sound(st, locals),
    ensures
        lower_vec_pack(ctx, a, st, sig, n) matches Some(s2) ==> state_sound(s2, locals),
{
    if lower_vec_pack(ctx, a, st, sig, n) is Some {
        let s2 = lower_vec_pack(ctx, a, st, sig, n)->0;
        let len = st.code.len() as int;
        let t = st.fresh();
        lemma_top_n(st, n as nat);
        lemma_pop(st, n as nat);
        assert(s2.code[len].dsts() == seq![t]);
        assert(s2.code[len].dsts()[0] == t);
        assert(defines(s2.code, len, t));
        assert forall|k: int| len <= k < s2.code.len() implies #[trigger] added_ok(
            st,
            s2,
            k,
            locals,
        ) by {
            if k == len {
            } else if k == len + 1 {
            } else {
                let m = s2.code[len + 1].dsts()[0];
                assert(defines(s2.code, len + 1, m));
                assert(s2.code[k].srcs() == seq![m, st.top_n(n as nat)[k - len - 2]]);
            }
        }
        assert forall|i: int| 0 <= i < s2.stack.len() implies given(
            st,
            s2,
            #[trigger] s2.stack[i],
            s2.code.len() as int,
            locals,
        ) by {
            if i < st.stack.len() - n {
                assert(s2.stack[i] == st.pop(n as nat).stack[i]);
            } else {
                assert(s2.stack[i] == t);
            }
        }
        lemma_grows(st, s2, locals);
    }
}

pub proof fn lemma_vec_unpack(
    ctx: LiftCtx,
    a: AttrId,
    st: LiftState,
    sig: u16,
    n: u64,
    locals: nat,
)
    requires
        state_sound(st, locals),
    ensures
        lower_vec_unpack(ctx, a, st, sig, n) matches Some(s2) ==> state_sound(s2, locals),
{
    if lower_vec_unpack(ctx, a, st, sig, n) is Some {
        let s2 = lower_vec_unpack(ctx, a, st, sig, n)->0;
        let len = st.code.len() as int;
        let x = st.top(0);
        let s1 = st.pop(1);
        let temps = s1.fresh_n(n as nat);
        let ty = ctx.type_params(sig)[0];
        lemma_pop(st, 1);
        lemma_push_all(s1, Seq::new(n as nat, |i: int| ty));
        assert(st.stack.contains(x));
        assert forall|k: int| len <= k < s2.code.len() implies #[trigger] added_ok(
            st,
            s2,
            k,
            locals,
        ) by {
            if n == 0 {
            } else if k == len {
            } else if k == s2.code.len() - 1 {
            } else {
                let m = s2.code[len].dsts()[0];
                assert(defines(s2.code, len, m));
                assert(s2.code[k].srcs() == seq![m]);
                assert(s2.code[k].dsts() == seq![temps[k - len - 1]]);
            }
        }
        assert forall|i: int| 0 <= i < s2.stack.len() implies given(
            st,
            s2,
            #[trigger] s2.stack[i],
            s2.code.len() as int,
            locals,
        ) by {
            if i < st.stack.len() - 1 {
                assert(s2.stack[i] == s1.stack[i]);
            } else {
                let j = i - (st.stack.len() - 1);
                assert(s2.stack[i] == temps[j]);
                assert(s2.code[len + 1 + j].dsts() == seq![temps[j]]);
                assert(s2.code[len + 1 + j].dsts()[0] == temps[j]);
                assert(defines(s2.code, len + 1 + j, temps[j]));
            }
        }
        lemma_grows(st, s2, locals);
    }
}

/// Whatever is popped and pushed by one of the plain steps, the state
/// stays sound.
proof fn lemma_plain_steps(st: LiftState, locals: nat)
    requires
        state_sound(st, locals),
    ensures
        forall|a: AttrId, op: OperationV, ty: TypeV|
            (#[trigger] st.unary(a, op, ty)) is Some ==> state_sound(
                st.unary(a, op, ty)->0,
                locals,
            ),
        forall|a: AttrId, op: OperationV, ty: TypeV|
            (#[trigger] st.binary(a, op, ty)) is Some ==> state_sound(
                st.binary(a, op, ty)->0,
                locals,
            ),
        forall|a: AttrId, op: OperationV, n: nat|
            (#[trigger] st.consume(a, op, n)) is Some ==> state_sound(
                st.consume(a, op, n)->0,
                locals,
            ),
        forall|a: AttrId, op: OperationV, n: nat, tys: Seq<TypeV>|
            (#[trigger] st.invoke(a, op, n, tys)) is Some ==> state_sound(
                st.invoke(a, op, n, tys)->0,
                locals,
            ),
        forall|a: AttrId, ty: TypeV, c: ConstantV|
            (#[trigger] st.load(a, ty, c)) is Some ==> state_sound(st.load(a, ty, c)->0, locals),
        forall|a: AttrId, op: OperationV|
            (#[trigger] lower_store(a, st, op)) is Some ==> state_sound(
                lower_store(a, st, op)->0,
                locals,
            ),
        forall|ctx: LiftCtx, a: AttrId, sd: u16, targs: Seq<TypeV>|
            (#[trigger] lower_pack(ctx, a, st, sd, targs)) is Some ==> state_sound(
                lower_pack(ctx, a, st, sd, targs)->0,
                locals,
            ),
        st.stack.len() >= 1 ==> state_sound(st.pop(1), locals),
{
    assert forall|a: AttrId, op: OperationV, ty: TypeV|
        (#[trigger] st.unary(a, op, ty)) is Some implies state_sound(
        st.unary(a, op, ty)->0,
        locals,
    ) by {
        lemma_unary(st, a, op, ty, locals);
    }
    assert forall|a: AttrId, op: OperationV, ty: TypeV|
        (#[trigger] st.binary(a, op, ty)) is Some implies state_sound(
        st.binary(a, op, ty)->0,
        locals,
    ) by {
        lemma_binary(st, a, op, ty, locals);
    }
    assert forall|a: AttrId, op: OperationV, n: nat|
        (#[trigger] st.consume(a, op, n)) is Some implies state_sound(
        st.consume(a, op, n)->0,
        locals,
    ) by {
        lemma_consume(st, a, op, n, locals);
    }
    assert forall|a: AttrId, op: OperationV, n: nat, tys: Seq<TypeV>|
        (#[trigger] st.invoke(a, op, n, tys)) is Some implies state_sound(
        st.invoke(a, op, n, tys)->0,
        locals,
    ) by {
        lemma_invoke(st, a, op, n, tys, locals);
    }
    assert forall|a: AttrId, ty: TypeV, c: ConstantV|
        (#[trigger] st.load(a, ty, c)) is Some implies state_sound(
        st.load(a, ty, c)->0,
        locals,
    ) by {
        lemma_load(st, a, ty, c, locals);
    }
    assert forall|a: AttrId, op: OperationV| (#[trigger] lower_store(a, st, op)) is Some implies state_sound(
        lower_store(a, st, op)->0,
        locals,
    ) by {
        lemma_store(a, st, op, locals);
    }
    assert forall|ctx: LiftCtx, a: AttrId, sd: u16, targs: Seq<TypeV>|
        (#[trigger] lower_pack(ctx, a, st, sd, targs)) is Some implies state_sound(
        lower_pack(ctx, a, st, sd, targs)->0,
        locals,
    ) by {
        lemma_pack(ctx, a, st, sd, targs, locals);
    }
    if st.stack.len() >= 1 {
        let s2 = st.pop(1);
        lemma_pop(st, 1);
        assert forall|i: int| 0 <= i < s2.stack.len() implies given(
            st,
            s2,
            #[trigger] s2.stack[i],
            s2.code.len() as int,
            locals,
        ) by {}
        lemma_grows(st, s2, locals);
    }
}

/// The source instruction reads the local `i`: it copies, moves or
/// borrows it.
pub open spec fn reads_local(bc: MoveBytecode, i: u8) -> bool {
    bc == MoveBytecode::CopyLoc(i) || bc == MoveBytecode::MoveLoc(i) || bc
        == MoveBytecode::MutBorrowLoc(i) || bc == MoveBytecode::ImmBorrowLoc(i)
}

/// Lowering one source instruction keeps the state sound, with the first
/// `base` of the `locals` taken as written from the start, where every
/// local that the instruction reads is one of these or written by the
/// code so far.
pub proof fn lemma_lower_body(
    ctx: LiftCtx,
    labels: LabelMap,
    def_idx: int,
    offset: int,
    bc: MoveBytecode,
    a: AttrId,
    st: LiftState,
    code_len: nat,
    locals: nat,
    base: nat,
)
    requires
        state_sound(st, base),
        ctx.module.instr_ok(bc, code_len, locals),
        locals <= st.types.len(),
        forall|i: u8| #[trigger]
            reads_local(bc, i) ==> defined_before(st.code, i as usize, st.code.len() as int, base),
    ensures
        lower_body(ctx, labels, def_idx, offset, bc, a, st) matches Some(s2) ==> state_sound(
            s2,
            base,
        ),
{
    lemma_plain_steps(st, base);
    assert forall|i: u8| #[trigger] reads_local(bc, i) implies defined_before(
        st.code,
        i as usize,
        st.code.len() as int,
        base,
    ) by {}
    match bc {
        MoveBytecode::Ret => {
            let n = ctx.return_count(def_idx);
            if st.stack.len() >= n {
                lemma_top_n(st, n);
                lemma_reads(st, BytecodeV::Ret(a, st.top_n(n)), n, base);
            }
        },
        MoveBytecode::BrTrue(t) => {
            lemma_branch(labels, a, st, t as int, offset + 1, base);
        },
        MoveBytecode::BrFalse(t) => {
            lemma_branch(labels, a, st, offset + 1, t as int, base);
        },
        MoveBytecode::Branch(t) => {
            lemma_jump(labels, a, st, t as int, base);
        },
        MoveBytecode::Abort => {
            if st.stack.len() >= 1 {
                assert(st.stack.contains(st.top(0)));
                lemma_reads(st, BytecodeV::Abort(a, st.top(0)), 1, base);
            }
        },
        MoveBytecode::StLoc(i) => {
            if st.stack.len() >= 1 {
                let ins = BytecodeV::Assign(a, i as usize, st.top(0), AssignKind::Store);
                assert(st.stack.contains(st.top(0)));
                lemma_pop(st, 1);
                lemma_one_more(st, st.pop(1).emit(ins), ins, base);
            }
        },
        MoveBytecode::Nop => {
            assert(st.pop(0).stack =~= st.stack);
            lemma_reads(st, BytecodeV::Nop(a), 0, base);
        },
        MoveBytecode::CopyLoc(i) => {
            assert(reads_local(bc, i));
            lemma_from_local(
                st,
                BytecodeV::Assign(a, st.fresh(), i as usize, AssignKind::Copy),
                ctx.local_type(def_idx, i as int),
                i as usize,
                base,
            );
        },
        MoveBytecode::MoveLoc(i) => {
            assert(reads_local(bc, i));
            lemma_from_local(
                st,
                BytecodeV::Assign(a, st.fresh(), i as usize, AssignKind::Move),
                ctx.local_type(def_idx, i as int),
                i as usize,
                base,
            );
        },
        MoveBytecode::MutBorrowLoc(i) => {
            assert(reads_local(bc, i));
            lemma_from_local(
                st,
                call(a, seq![st.fresh()], OperationV::BorrowLoc, seq![i as usize]),
                crate::move_ir::lowering::reference(true, ctx.local_type(def_idx, i as int)),
                i as usize,
                base,
            );
        },
        MoveBytecode::ImmBorrowLoc(i) => {
            assert(reads_local(bc, i));
            lemma_from_local(
                st,
                call(a, seq![st.fresh()], OperationV::BorrowLoc, seq![i as usize]),
                crate::move_ir::lowering::reference(false, ctx.local_type(def_idx, i as int)),
                i as usize,
                base,
            );
        },
        MoveBytecode::VecPack(sig, n) => {
            lemma_vec_pack(ctx, a, st, sig, n, base);
        },
        MoveBytecode::VecUnpack(sig, n) => {
            lemma_vec_unpack(ctx, a, st, sig, n, base);
        },
        _ => {},
    }
}

/// The instruction at `p` of `src` stores to the local `i`.
pub open spec fn stores_at(src: Seq<MoveBytecode>, p: int, i: u8) -> bool {
    0 <= p < src.len() && src[p] == MoveBytecode::StLoc(i)
}

/// Among the first `n` instructions of `src`, every one that reads a
/// local that is not among the first `base` stands behind one that
/// stores to that local.
pub open spec fn stored_first(src: Seq<MoveBytecode>, base: nat, n: nat) -> bool {
    forall|pc: int, i: u8|
        0 <= pc < n && base <= i && #[trigger] reads_local(src[pc], i) ==> exists|p: int|
            p < pc && #[trigger] stores_at(src, p, i)
}

/// Lowering the first `n` instructions of a function keeps the state
/// sound, with the first `base` locals taken as written from the start,
/// where the source stores to every other local before it reads it; and
/// the code writes every local that one of these instructions stores to.
pub proof fn lemma_lower_prefix(ctx: LiftCtx, labels: LabelMap, f: int, n: nat, base: nat)
    requires
        ctx.module.bounds_ok(),
        0 <= f < ctx.module.function_defs@.len(),
        n <= source_code(ctx, f).len(),
        base <= ctx.local_tokens(f).len(),
        stored_first(source_code(ctx, f), base, n),
    ensures
        lower_prefix(ctx, labels, f, source_code(ctx, f), n, init_state(ctx, f)) matches Some(st)
            ==> {
            &&& state_sound(st, base)
            &&& ctx.local_tokens(f).len() <= st.types.len()
            &&& forall|p: int, i: u8|
                p < n && #[trigger] stores_at(source_code(ctx, f), p, i) ==> exists|x: int| #[trigger]
                    defines(st.code, x, i as usize)
        },
    decreases n,
{
    let locals = ctx.local_tokens(f).len();
    let code = source_code(ctx, f);
    if n > 0 {
        assert(stored_first(code, base, (n - 1) as nat));
        lemma_lower_prefix(ctx, labels, f, (n - 1) as nat, base);
        match lower_prefix(ctx, labels, f, code, (n - 1) as nat, init_state(ctx, f)) {
            Some(st) => {
                let s1 = with_label(labels, n - 1, st);
                if labels.at[n - 1] is Some {
                    let ins = BytecodeV::Label(AttrId(st.attrs as usize), labels.at[n - 1]->0);
                    assert(st.pop(0).stack =~= st.stack);
                    lemma_reads(st, ins, 0, base);
                }
                let s0 = s1.next_attr();
                assert(state_sound(s0, base));
                assert(code_kept(st, s0));
                lemma_code_kept(st, s0);
                assert(ctx.module.function_def_ok(f));
                let bc = code[n - 1];
                assert forall|i: u8| #[trigger] reads_local(bc, i) implies defined_before(
                    s0.code,
                    i as usize,
                    s0.code.len() as int,
                    base,
                ) by {
                    if base <= i {
                        let p = choose|p: int| p < n - 1 && #[trigger] stores_at(code, p, i);
                        assert(stores_at(code, p, i));
                        let x = choose|x: int| #[trigger] defines(st.code, x, i as usize);
                        assert(defines(st.code, x, i as usize));
                        let y = choose|y: int| #[trigger] defines(s0.code, y, i as usize);
                        assert(defines(s0.code, y, i as usize));
                    }
                }
                lemma_lower_body(
                    ctx,
                    labels,
                    f,
                    n - 1,
                    bc,
                    AttrId(s1.attrs as usize),
                    s0,
                    code.len(),
                    locals,
                    base,
                );
                lemma_lower_body_kept(ctx, labels, f, n - 1, bc, AttrId(s1.attrs as usize), s0);
                match lower_body(ctx, labels, f, n - 1, bc, AttrId(s1.attrs as usize), s0) {
                    Some(s2) => {
                        lemma_writes_kept_twice(st, s0, s2);
                        assert forall|p: int, i: u8|
                            p < n && #[trigger] stores_at(code, p, i) implies exists|x: int| #[trigger]
                            defines(s2.code, x, i as usize) by {
                            if p < n - 1 {
                                let x = choose|x: int| #[trigger] defines(st.code, x, i as usize);
                                assert(defines(st.code, x, i as usize));
                            }
                        }
                    },
                    None => {},
                }
            },
            None => {},
        }
    }
}

/// Putting jumps before labels keeps the code sound, and what was written
/// among the first `n` instructions is written in what comes of them.
pub proof fn lemma_with_jumps_sound(code: Seq<BytecodeV>, n: nat, n_ty: nat, locals: nat)
    requires
        n <= code.len(),
        code_sound(code, n_ty, locals),
    ensures
        code_sound(with_jumps(code, n), n_ty, locals),
        forall|t: usize| #[trigger]
            defined_before(code, t, n as int, locals) ==> defined_before(
                with_jumps(code, n),
                t,
                with_jumps(code, n).len() as int,
                locals,
            ),
    decreases n,
{
    if n > 0 {
        lemma_with_jumps_sound(code, (n - 1) as nat, n_ty, locals);
        let prev = with_jumps(code, (n - 1) as nat);
        let out = with_jumps(code, n);
        let last = out.len() - 1;
        assert(out[last] == code[n - 1]);
        assert forall|k: int| 0 <= k < prev.len() implies out[k] == prev[k] by {}
        assert forall|t: usize| #[trigger]
            defined_before(prev, t, prev.len() as int, locals) implies defined_before(
            out,
            t,
            last,
            locals,
        ) by {
            if t >= locals {
                let j = choose|j: int| j < prev.len() && #[trigger] defines(prev, j, t);
                assert(out[j] == prev[j]);
                assert(defines(out, j, t));
            }
        }
        assert forall|k: int| 0 <= k < out.len() implies #[trigger] temps_sound(
            out,
            k,
            n_ty,
            locals,
        ) by {
            let bc = out[k];
            if k < prev.len() {
                assert(temps_sound(prev, k, n_ty, locals));
                assert forall|i: int| 0 <= i < bc.srcs().len() implies defined_before(
                    out,
                    #[trigger] bc.srcs()[i],
                    k,
                    locals,
                ) by {
                    let t = bc.srcs()[i];
                    assert(defined_before(prev, t, k, locals));
                    if t >= locals {
                        let j = choose|j: int| j < k && #[trigger] defines(prev, j, t);
                        assert(out[j] == prev[j]);
                        assert(defines(out, j, t));
                    }
                }
            } else if k == last {
                assert(temps_sound(code, n - 1, n_ty, locals));
                assert forall|i: int| 0 <= i < bc.srcs().len() implies defined_before(
                    out,
                    #[trigger] bc.srcs()[i],
                    k,
                    locals,
                ) by {
                    let t = bc.srcs()[i];
                    assert(defined_before(code, t, n - 1, locals));
                    assert(defined_before(prev, t, prev.len() as int, locals));
                }
            } else {
                assert(bc is Jump);
            }
        }
        assert forall|t: usize| #[trigger]
            defined_before(code, t, n as int, locals) implies defined_before(
            out,
            t,
            out.len() as int,
            locals,
        ) by {
            if t >= locals {
                let j = choose|j: int| j < n && #[trigger] defines(code, j, t);
                if j == n - 1 {
                    assert(defines(out, last, t));
                } else {
                    assert(defined_before(code, t, n - 1, locals));
                    assert(defined_before(prev, t, prev.len() as int, locals));
                    let x = choose|x: int| x < last && #[trigger] defines(out, x, t);
                    assert(defines(out, x, t));
                }
            }
        }
    }
}

/// An offset at which a temp is written is listed among its definitions.
pub proof fn lemma_defines_listed(code: Seq<BytecodeV>, t: usize, j: int, n: nat)
    requires
        defines(code, j, t),
        j < n <= code.len(),
        n <= usize::MAX,
    ensures
        def_offsets(code, t, n).contains(j as usize),
    decreases n,
{
    let ds = code[n - 1].dsts();
    let rest = def_offsets(code, t, (n - 1) as nat);
    let here = hits(ds, t, (n - 1) as usize, ds.len());
    if j == n - 1 {
        let i = choose|i: int| 0 <= i < ds.len() && ds[i] == t;
        lemma_hit(ds, t, j as usize, ds.len(), i);
        let x = choose|x: int| 0 <= x < here.len() && here[x] == j as usize;
        assert((rest + here)[rest.len() + x] == j as usize);
    } else {
        lemma_defines_listed(code, t, j, (n - 1) as nat);
        let x = choose|x: int| 0 <= x < rest.len() && rest[x] == j as usize;
        assert((rest + here)[x] == j as usize);
    }
}

proof fn lemma_hit(temps: Seq<usize>, t: usize, k: usize, m: nat, i: int)
    requires
        0 <= i < m <= temps.len(),
        temps[i] == t,
    ensures
        hits(temps, t, k, m).contains(k),
    decreases m,
{
    if temps[m - 1] == t {
        let h = hits(temps, t, k, (m - 1) as nat);
        assert(h.push(k)[h.len() as int] == k);
    } else {
        lemma_hit(temps, t, k, (m - 1) as nat, i);
    }
}

/// The lifted code of a function is sound: every temp that it names has a
/// type, and every temp that it reads is a local or written before.
pub proof fn lemma_lifted_sound(ctx: LiftCtx, f: int)
    requires
        ctx.module.bounds_ok(),
        0 <= f < ctx.module.function_defs@.len(),
    ensures
        lift_function(ctx, f) matches Some(l) ==> l.args_count <= l.types.len() && code_sound(
            l.code,
            l.types.len(),
            l.args_count,
        ),
{
    let code = source_code(ctx, f);
    let labels = LabelMap::build(code, code.len());
    let locals = ctx.local_tokens(f).len();
    assert forall|pc: int, i: u8|
        0 <= pc < code.len() && locals <= i && #[trigger] reads_local(code[pc], i) implies exists|
        p: int,
    |
        p < pc && #[trigger] stores_at(code, p, i) by {
        assert(ctx.module.function_def_ok(f));
        assert(ctx.module.instr_ok(code[pc], code.len(), locals));
    }
    lemma_lower_prefix(ctx, labels, f, code.len(), locals);
    match lower_prefix(ctx, labels, f, code, code.len(), init_state(ctx, f)) {
        Some(st) => {
            lemma_with_jumps_sound(st.code, st.code.len(), st.types.len(), locals);
        },
        None => {},
    }
}

/// After lifting, every temp that an instruction of the function names
/// has a type.
pub proof fn lemma_temps_typed(ctx: LiftCtx, f: int, function: FunctionInfo)
    requires
        ctx.module.bounds_ok(),
        0 <= f < ctx.module.function_defs@.len(),
        lift_function(ctx, f) matches Some(l) && function.lifted_code(l),
    ensures
        forall|k: int, i: int|
            0 <= k < function.code@.len() && 0 <= i < function.code@[k]@.dsts().len() ==> (
            #[trigger] function.code@[k]@.dsts()[i]) < function.local_types@.len(),
        forall|k: int, i: int|
            0 <= k < function.code@.len() && 0 <= i < function.code@[k]@.srcs().len() ==> (
            #[trigger] function.code@[k]@.srcs()[i]) < function.local_types@.len(),
{
    lemma_lifted_sound(ctx, f);
    let l = lift_function(ctx, f)->0;
    assert(types_view(function.local_types@).len() == function.local_types@.len());
    assert forall|k: int| 0 <= k < function.code@.len() implies l.code[k]
        == function.code@[k]@ && #[trigger] temps_sound(
        l.code,
        k,
        l.types.len(),
        l.args_count,
    ) by {
        assert(code_view(function.code@)[k] == function.code@[k]@);
    }
    assert forall|k: int, i: int|
        0 <= k < function.code@.len() && 0 <= i < function.code@[k]@.dsts().len() implies (
    #[trigger] function.code@[k]@.dsts()[i]) < function.local_types@.len() by {
        assert(temps_sound(l.code, k, l.types.len(), l.args_count));
    }
    assert forall|k: int, i: int|
        0 <= k < function.code@.len() && 0 <= i < function.code@[k]@.srcs().len() implies (
    #[trigger] function.code@[k]@.srcs()[i]) < function.local_types@.len() by {
        assert(temps_sound(l.code, k, l.types.len(), l.args_count));
    }
}

/// In code that is sound, every temp that an instruction reads is among
/// the first `base` or listed as defined at an earlier offset.
proof fn lemma_sound_uses(function: FunctionInfo, l: crate::move_ir::generate_bytecode::Lifted, base: nat)
    requires
        function.lifted_code(l),
        code_sound(l.code, l.types.len(), base),
    ensures
        forall|k: int, i: int|
            0 <= k < function.code@.len() && 0 <= i < function.code@[k]@.srcs().len() ==> {
                let t = #[trigger] function.code@[k]@.srcs()[i];
                t < base || stored_before(function, t, k)
            },
{
    assert forall|k: int, i: int|
        0 <= k < function.code@.len() && 0 <= i < function.code@[k]@.srcs().len() implies {
        let t = #[trigger] function.code@[k]@.srcs()[i];
        t < base || stored_before(function, t, k)
    } by {
        let t = function.code@[k]@.srcs()[i];
        assert(code_view(function.code@)[k] == function.code@[k]@);
        assert(temps_sound(l.code, k, l.types.len(), base));
        assert(l.code[k].srcs()[i] == t);
        assert(defined_before(l.code, t, k, base));
        if t >= base {
            let d = choose|d: int| d < k && #[trigger] defines(l.code, d, t);
            assert(function.code.len() == function.code@.len());
            assert(l.code.len() == function.code@.len());
            assert(t < l.types.len());
            assert(crate::move_ir::def_use::table_view(function.def_attrid@).len()
                == function.def_attrid@.len());
            lemma_defines_listed(l.code, t, d, (d + 1) as nat);
            lemma_offsets_grow(l.code, t, (d + 1) as nat, l.code.len());
            let table = def_table(l.code, l.types.len());
            let offsets = def_offsets(l.code, t, l.code.len());
            assert(table[t as int] == offsets);
            assert(crate::move_ir::def_use::table_view(function.def_attrid@)[t as int]
                == function.def_attrid@[t as int]@);
            let early = def_offsets(l.code, t, (d + 1) as nat);
            let x = choose|x: int| 0 <= x < early.len() && early[x] == d as usize;
            assert(offsets[x] == d as usize);
            assert(function.def_attrid@[t as int]@[x] < k);
        }
    }
}

/// After lifting, every temp that an instruction reads is a parameter or
/// a declared local of the function, or has a definition at an earlier
/// offset.
pub proof fn lemma_uses_defined(ctx: LiftCtx, f: int, function: FunctionInfo)
    requires
        ctx.module.bounds_ok(),
        0 <= f < ctx.module.function_defs@.len(),
        lift_function(ctx, f) matches Some(l) && function.lifted_code(l),
    ensures
        forall|k: int, i: int|
            0 <= k < function.code@.len() && 0 <= i < function.code@[k]@.srcs().len() ==> {
                let t = #[trigger] function.code@[k]@.srcs()[i];
                t < function.args_count || stored_before(function, t, k)
            },
{
    lemma_lifted_sound(ctx, f);
    let l = lift_function(ctx, f)->0;
    lemma_sound_uses(function, l, l.args_count);
}

/// The definitions among fewer instructions open the list of those among
/// more.
pub proof fn lemma_offsets_grow(code: Seq<BytecodeV>, t: usize, n: nat, m: nat)
    requires
        n <= m,
    ensures
        def_offsets(code, t, n).len() <= def_offsets(code, t, m).len(),
        forall|x: int|
            0 <= x < def_offsets(code, t, n).len() ==> def_offsets(code, t, m)[x] == def_offsets(
                code,
                t,
                n,
            )[x],
    decreases m,
{
    if n < m {
        lemma_offsets_grow(code, t, n, (m - 1) as nat);
    }
}

/// The source instruction ends a function or leaves the place where it
/// stands for good: a return, an abort or an unconditional branch.
pub open spec fn ends_flow(bc: MoveBytecode) -> bool {
    bc is Ret || bc is Abort || bc is Branch
}

/// What a return, an abort or an unconditional branch is lowered to ends
/// in a return, an abort, a jump or a branch.
pub proof fn lemma_lowered_ends(
    ctx: LiftCtx,
    labels: LabelMap,
    def_idx: int,
    offset: int,
    bc: MoveBytecode,
    st: LiftState,
)
    requires
        ends_flow(bc),
    ensures
        crate::move_ir::lowering::lower(ctx, labels, def_idx, offset, bc, st) matches Some(s2)
            ==> s2.code.len() > 0 && s2.code.last().is_branch(),
{
}

/// The lifted code of a function whose source ends in a return, an abort
/// or an unconditional branch ends in a return, an abort, a jump or a
/// branch.
pub proof fn lemma_lifted_ends(ctx: LiftCtx, f: int)
    requires
        source_code(ctx, f).len() > 0,
        ends_flow(source_code(ctx, f).last()),
    ensures
        lift_function(ctx, f) matches Some(l) ==> l.code.len() > 0 && l.code.last().is_branch(),
{
    let code = source_code(ctx, f);
    let labels = LabelMap::build(code, code.len());
    let n = code.len();
    match lower_prefix(ctx, labels, f, code, (n - 1) as nat, init_state(ctx, f)) {
        Some(st) => {
            lemma_lowered_ends(ctx, labels, f, n - 1, code[n - 1], st);
            match lower_prefix(ctx, labels, f, code, n, init_state(ctx, f)) {
                Some(s2) => {
                    crate::move_ir::control_flow_graph::lemma_labels_follow_jumps(
                        s2.code,
                        s2.code.len(),
                    );
                },
                None => {},
            }
        },
        None => {},
    }
}

/// In the control-flow graph of a lifted function whose source ends in a
/// return, an abort or an unconditional branch, every basic block ends in
/// a return, an abort, a jump or a branch.
pub proof fn lemma_lifted_blocks_end(ctx: LiftCtx, f: int, function: FunctionInfo, b: int)
    requires
        source_code(ctx, f).len() > 0,
        ends_flow(source_code(ctx, f).last()),
        lift_function(ctx, f) matches Some(l) && function.lifted_code(l),
        function.cfg matches Some(cfg) && cfg.is_graph_of(code_view(function.code@)),
        2 <= b < function.cfg->0.blocks@.len(),
    ensures
        ({
            let content = function.cfg->0.blocks@[b].content;
            &&& content is Basic
            &&& content->upper < function.code@.len()
            &&& function.code@[content->upper as int]@.is_branch()
        }),
{
    let code = source_code(ctx, f);
    let labels = LabelMap::build(code, code.len());
    let st = lower_prefix(ctx, labels, f, code, code.len(), init_state(ctx, f))->0;
    let cfg = function.cfg->0;
    lemma_lifted_ends(ctx, f);
    assert(code_view(function.code@) == with_jumps(st.code, st.code.len()));
    crate::move_ir::control_flow_graph::lemma_labels_follow_jumps(st.code, st.code.len());
    crate::move_ir::control_flow_graph::lemma_blocks_end_in_jumps(&cfg, st.code, b);
    let upper = cfg.blocks@[b].content->upper as int;
    assert(code_view(function.code@)[upper] == function.code@[upper]@);
}

/// After lifting, every temp that an instruction reads is one of the
/// first `params` locals of the function, its parameters, or has a
/// definition at an earlier offset, provided that the source stores to
/// every other local before the instructions that read it.
pub proof fn lemma_uses_defined_or_parameters(
    ctx: LiftCtx,
    f: int,
    function: FunctionInfo,
    params: nat,
)
    requires
        ctx.module.bounds_ok(),
        0 <= f < ctx.module.function_defs@.len(),
        lift_function(ctx, f) matches Some(l) && function.lifted_code(l),
        params <= function.args_count,
        stored_first(source_code(ctx, f), params, source_code(ctx, f).len()),
    ensures
        forall|k: int, i: int|
            0 <= k < function.code@.len() && 0 <= i < function.code@[k]@.srcs().len() ==> {
                let t = #[trigger] function.code@[k]@.srcs()[i];
                t < params || stored_before(function, t, k)
            },
{
    let code = source_code(ctx, f);
    let labels = LabelMap::build(code, code.len());
    let l = lift_function(ctx, f)->0;
    lemma_lower_prefix(ctx, labels, f, code.len(), params);
    let st = lower_prefix(ctx, labels, f, code, code.len(), init_state(ctx, f))->0;
    lemma_with_jumps_sound(st.code, st.code.len(), st.types.len(), params);
    lemma_sound_uses(function, l, params);
}

/// The table of definitions lists, for the temp `t`, an offset before
/// `k`.
pub open spec fn stored_before(function: FunctionInfo, t: usize, k: int) -> bool {
    t < function.def_attrid@.len() && exists|j: int|
        0 <= j < function.def_attrid@[t as int]@.len() && #[trigger] function.def_attrid@[t as int]@[j]
            < k
}

} // verus!
