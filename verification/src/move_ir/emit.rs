use vstd::prelude::*;
use crate::move_ir::bytecode::{clone_operation, code_view, AttrId, Bytecode, Constant, Label, Operation};
use crate::move_ir::lowering::{call, ends_in_fallthrough, instantiate_all, lower_arith, lower_branch, lower_freeze, lower_jump, lower_read_ref, lower_store, vec_packed, vec_unpacked, vector, LabelMap, LiftState};
use crate::move_ir::types::{clone_type, lemma_type_view, types_view, Type, TypeV};

verus! {

/// The state that lowering has reached, read off the three vectors that
/// hold it.
pub open spec fn lift_state(
    code: Seq<Bytecode>,
    types: Seq<Type>,
    stack: Seq<usize>,
    attrs: nat,
) -> LiftState {
    LiftState { code: code_view(code), types: types_view(types), stack, attrs }
}

pub(crate) fn emit(code: &mut Vec<Bytecode>, bc: Bytecode)
    ensures
        code_view(final(code)@) == code_view(old(code)@).push(bc@),
{
    code.push(bc);
    assert(code_view(code@) =~= code_view(old(code)@).push(bc@));
}

/// A new temp of type `ty`, not on the stack.
pub(crate) fn new_temp(types: &mut Vec<Type>, ty: Type) -> (t: usize)
    ensures
        t == old(types)@.len(),
        final(types)@.len() == old(types)@.len() + 1,
        types_view(final(types)@) == types_view(old(types)@).push(ty@),
{
    let t = types.len();
    types.push(ty);
    assert(types_view(types@) =~= types_view(old(types)@).push(ty@));
    t
}

/// A new temp of type `ty`, pushed on the stack.
pub(crate) fn push_fresh(stack: &mut Vec<usize>, types: &mut Vec<Type>, ty: Type) -> (t: usize)
    ensures
        t == old(types)@.len(),
        final(types)@.len() == old(types)@.len() + 1,
        types_view(final(types)@) == types_view(old(types)@).push(ty@),
        final(stack)@ == old(stack)@.push(t),
{
    let t = new_temp(types, ty);
    stack.push(t);
    t
}

/// One new temp for each of `tys`, each pushed on the stack.
pub(crate) fn push_all(
    stack: &mut Vec<usize>,
    types: &mut Vec<Type>,
    tys: Vec<Type>,
    Ghost(code): Ghost<Seq<Bytecode>>,
    Ghost(attrs): Ghost<nat>,
) -> (temps: Vec<usize>)
    ensures
        lift_state(code, final(types)@, final(stack)@, attrs) == lift_state(
            code,
            old(types)@,
            old(stack)@,
            attrs,
        ).push_all(types_view(tys@)),
        temps@ == lift_state(code, old(types)@, old(stack)@, attrs).fresh_n(tys@.len()),
        old(types)@.len() + tys@.len() == final(types)@.len(),
{
    let ghost st0 = lift_state(code, types@, stack@, attrs);
    let ghost all = types_view(tys@);
    let mut temps: Vec<usize> = Vec::new();
    let mut i: usize = 0;
    assert(all.subrange(0, 0) =~= Seq::<TypeV>::empty());
    while i < tys.len()
        invariant
            i <= tys.len(),
            all == types_view(tys@),
            st0 == lift_state(code, old(types)@, old(stack)@, attrs),
            lift_state(code, types@, stack@, attrs) == st0.push_all(all.subrange(0, i as int)),
            types@.len() == old(types)@.len() + i,
            temps@.len() == i,
            forall|j: int| 0 <= j < i ==> temps@[j] == (old(types)@.len() + j) as usize,
        decreases tys.len() - i,
    {
        let ghost before = lift_state(code, types@, stack@, attrs);
        let t = push_fresh(stack, types, clone_type(&tys[i]));
        temps.push(t);
        proof {
            let next = all.subrange(0, i + 1);
            assert(next.drop_last() =~= all.subrange(0, i as int));
            assert(next.last() == tys@[i as int]@);
            assert(lift_state(code, types@, stack@, attrs) == before.push_fresh(tys@[i as int]@));
        }
        i += 1;
    }
    assert(all.subrange(0, tys@.len() as int) =~= all);
    assert(temps@ =~= st0.fresh_n(tys@.len()));
    temps
}

/// Takes the topmost `n` temps off the stack, the deepest first.
pub(crate) fn pop_n(stack: &mut Vec<usize>, n: usize) -> (r: Option<Vec<usize>>)
    ensures
        r is Some <==> old(stack)@.len() >= n,
        r matches Some(v) ==> v@ == old(stack)@.subrange(
            old(stack)@.len() - n,
            old(stack)@.len() as int,
        ) && final(stack)@ == old(stack)@.subrange(0, old(stack)@.len() - n),
        r is None ==> final(stack)@ == old(stack)@,
{
    if stack.len() < n {
        None
    } else {
        let at = stack.len() - n;
        let v = stack.split_off(at);
        Some(v)
    }
}

pub(crate) fn unary(
    stack: &mut Vec<usize>,
    code: &mut Vec<Bytecode>,
    types: &mut Vec<Type>,
    a: AttrId,
    op: Operation,
    ty: Type,
    Ghost(attrs): Ghost<nat>,
) -> (ok: bool)
    ensures
        ok == (lift_state(old(code)@, old(types)@, old(stack)@, attrs).unary(a, op@, ty@) is Some),
        ok ==> Some(lift_state(final(code)@, final(types)@, final(stack)@, attrs)) == lift_state(
            old(code)@,
            old(types)@,
            old(stack)@,
            attrs,
        ).unary(a, op@, ty@),
{
    match stack.pop() {
        Some(src) => {
            let t = push_fresh(stack, types, ty);
            let dsts = vec![t];
            let srcs = vec![src];
            proof {
                let st0 = lift_state(old(code)@, old(types)@, old(stack)@, attrs);
                assert(stack@ =~= st0.pop(1).push_fresh(ty@).stack);
                assert(dsts@ =~= seq![st0.fresh()]);
                assert(srcs@ =~= seq![st0.top(0)]);
            }
            emit(code, Bytecode::Call(a, dsts, op, srcs, None));
            true
        },
        None => false,
    }
}

pub(crate) fn binary(
    stack: &mut Vec<usize>,
    code: &mut Vec<Bytecode>,
    types: &mut Vec<Type>,
    a: AttrId,
    op: Operation,
    ty: Type,
    Ghost(attrs): Ghost<nat>,
) -> (ok: bool)
    ensures
        ok == (lift_state(old(code)@, old(types)@, old(stack)@, attrs).binary(a, op@, ty@) is Some),
        ok ==> Some(lift_state(final(code)@, final(types)@, final(stack)@, attrs)) == lift_state(
            old(code)@,
            old(types)@,
            old(stack)@,
            attrs,
        ).binary(a, op@, ty@),
{
    if stack.len() < 2 {
        return false;
    }
    let src2 = stack.pop().unwrap();
    let src1 = stack.pop().unwrap();
    let t = push_fresh(stack, types, ty);
    let dsts = vec![t];
    let srcs = vec![src1, src2];
    proof {
        let st0 = lift_state(old(code)@, old(types)@, old(stack)@, attrs);
        assert(stack@ =~= st0.pop(2).push_fresh(ty@).stack);
        assert(dsts@ =~= seq![st0.fresh()]);
        assert(srcs@ =~= seq![st0.top(1), st0.top(0)]);
    }
    emit(code, Bytecode::Call(a, dsts, op, srcs, None));
    true
}

pub(crate) fn consume(
    stack: &mut Vec<usize>,
    code: &mut Vec<Bytecode>,
    a: AttrId,
    op: Operation,
    n: usize,
    Ghost(types): Ghost<Seq<Type>>,
    Ghost(attrs): Ghost<nat>,
) -> (ok: bool)
    ensures
        ok == (lift_state(old(code)@, types, old(stack)@, attrs).consume(a, op@, n as nat) is Some),
        ok ==> Some(lift_state(final(code)@, types, final(stack)@, attrs)) == lift_state(
            old(code)@,
            types,
            old(stack)@,
            attrs,
        ).consume(a, op@, n as nat),
{
    match pop_n(stack, n) {
        Some(srcs) => {
            let dsts: Vec<usize> = Vec::new();
            assert(dsts@ =~= Seq::<usize>::empty());
            emit(code, Bytecode::Call(a, dsts, op, srcs, None));
            true
        },
        None => false,
    }
}

pub(crate) fn load(
    stack: &mut Vec<usize>,
    code: &mut Vec<Bytecode>,
    types: &mut Vec<Type>,
    a: AttrId,
    ty: Type,
    c: Constant,
    Ghost(attrs): Ghost<nat>,
) -> (ok: bool)
    ensures
        ok,
        Some(lift_state(final(code)@, final(types)@, final(stack)@, attrs)) == lift_state(
            old(code)@,
            old(types)@,
            old(stack)@,
            attrs,
        ).load(a, ty@, c@),
{
    let t = push_fresh(stack, types, ty);
    emit(code, Bytecode::Load(a, t, c));
    true
}

/// An operation on the two topmost temps that yields nothing and takes the
/// topmost first.
pub(crate) fn store(
    stack: &mut Vec<usize>,
    code: &mut Vec<Bytecode>,
    a: AttrId,
    op: Operation,
    Ghost(types): Ghost<Seq<Type>>,
    Ghost(attrs): Ghost<nat>,
) -> (ok: bool)
    ensures
        ok == (lower_store(
            a,
            lift_state(old(code)@, types, old(stack)@, attrs),
            op@,
        ) is Some),
        ok ==> Some(lift_state(final(code)@, types, final(stack)@, attrs))
            == lower_store(
            a,
            lift_state(old(code)@, types, old(stack)@, attrs),
            op@,
        ),
{
    if stack.len() < 2 {
        return false;
    }
    let first = stack.pop().unwrap();
    let second = stack.pop().unwrap();
    let dsts: Vec<usize> = Vec::new();
    let srcs = vec![first, second];
    proof {
        let st0 = lift_state(old(code)@, types, old(stack)@, attrs);
        assert(stack@ =~= st0.pop(2).stack);
        assert(dsts@ =~= Seq::<usize>::empty());
        assert(srcs@ =~= seq![st0.top(0), st0.top(1)]);
    }
    emit(code, Bytecode::Call(a, dsts, op, srcs, None));
    true
}

/// The type of the temp `t`, if there is such a temp.
pub(crate) fn type_of(types: &Vec<Type>, t: usize) -> (r: Option<Type>)
    ensures
        r is Some <==> t < types@.len(),
        r matches Some(ty) ==> ty@ == types_view(types@)[t as int],
{
    if t < types.len() {
        Some(clone_type(&types[t]))
    } else {
        None
    }
}

/// The labels of a function as lowering holds them: the label at each code
/// offset that has one, and how many there are.
pub struct LabelTable {
    pub at: Vec<Option<Label>>,
    pub count: usize,
}

/// The labels that `table` holds, with `fallthrough` as the ones that only
/// mark where a conditional branch falls through to.
pub open spec fn labels_of(table: &LabelTable, fallthrough: Seq<Label>) -> LabelMap {
    LabelMap { at: table.at@, count: table.count as nat, fallthrough: fallthrough.to_set() }
}

pub(crate) fn contains_label(labels: &Vec<Label>, l: Label) -> (r: bool)
    ensures
        r == labels@.to_set().contains(l),
{
    let mut i: usize = 0;
    while i < labels.len()
        invariant
            i <= labels.len(),
            forall|j: int| 0 <= j < i ==> labels@[j] != l,
        decreases labels.len() - i,
    {
        if labels[i] == l {
            assert(labels@.contains(l));
            return true;
        }
        i += 1;
    }
    assert(!labels@.contains(l));
    false
}

/// The label at `offset`, if the table reaches that far and has one there.
pub(crate) fn label_at(table: &LabelTable, offset: usize) -> (r: Option<Label>)
    requires
        offset < table.at@.len(),
    ensures
        r == table.at@[offset as int],
{
    table.at[offset]
}

pub(crate) fn branch(
    stack: &mut Vec<usize>,
    code: &mut Vec<Bytecode>,
    a: AttrId,
    table: &LabelTable,
    then_offset: usize,
    else_offset: usize,
    Ghost(labels): Ghost<LabelMap>,
    Ghost(types): Ghost<Seq<Type>>,
    Ghost(attrs): Ghost<nat>,
) -> (ok: bool)
    requires
        labels.at == table.at@,
        then_offset < table.at@.len(),
        else_offset < table.at@.len(),
    ensures
        ok == (lower_branch(
            labels,
            a,
            lift_state(old(code)@, types, old(stack)@, attrs),
            then_offset as int,
            else_offset as int,
        ) is Some),
        ok ==> Some(lift_state(final(code)@, types, final(stack)@, attrs)) == lower_branch(
            labels,
            a,
            lift_state(old(code)@, types, old(stack)@, attrs),
            then_offset as int,
            else_offset as int,
        ),
{
    let then_label = label_at(table, then_offset);
    let else_label = label_at(table, else_offset);
    match (then_label, else_label) {
        (Some(t), Some(e)) => {
            match stack.pop() {
                Some(cond) => {
                    emit(code, Bytecode::Branch(a, t, e, cond));
                    proof {
                        let st0 = lift_state(old(code)@, types, old(stack)@, attrs);
                        assert(stack@ =~= st0.pop(1).stack);
                    }
                    true
                },
                None => false,
            }
        },
        _ => false,
    }
}

/// An unconditional jump: folded into the conditional branch before it
/// where the code ends in one that falls through to here.
pub(crate) fn jump(
    code: &mut Vec<Bytecode>,
    a: AttrId,
    table: &LabelTable,
    fallthrough: &Vec<Label>,
    target: usize,
    Ghost(labels): Ghost<LabelMap>,
    Ghost(types): Ghost<Seq<Type>>,
    Ghost(stack): Ghost<Seq<usize>>,
    Ghost(attrs): Ghost<nat>,
) -> (ok: bool)
    requires
        labels.at == table.at@,
        labels.fallthrough == fallthrough@.to_set(),
        target < table.at@.len(),
    ensures
        ok == (lower_jump(labels, a, lift_state(old(code)@, types, stack, attrs), target as int)
            is Some),
        ok ==> Some(lift_state(final(code)@, types, stack, attrs)) == lower_jump(
            labels,
            a,
            lift_state(old(code)@, types, stack, attrs),
            target as int,
        ),
{
    let ghost st0 = lift_state(code@, types, stack, attrs);
    let target_label = match label_at(table, target) {
        Some(l) => l,
        None => {
            return false;
        },
    };
    let at = code.len();
    let mut folded: Option<(AttrId, Label, usize)> = None;
    if at >= 2 {
        match (&code[at - 2], &code[at - 1]) {
            (Bytecode::Branch(attr, if_true, if_false, c), Bytecode::Label(_, cont)) => {
                if contains_label(fallthrough, *cont) && *if_false == *cont {
                    folded = Some((*attr, *if_true, *c));
                }
            },
            _ => {},
        }
    }
    match folded {
        Some((attr, if_true, c)) => {
            assert(ends_in_fallthrough(labels, st0));
            code.pop();
            code.pop();
            code.push(Bytecode::Branch(attr, if_true, target_label, c));
            assert(code_view(code@) =~= lower_jump(labels, a, st0, target as int)->0.code);
            true
        },
        None => {
            assert(!ends_in_fallthrough(labels, st0));
            emit(code, Bytecode::Jump(a, target_label));
            true
        },
    }
}

pub(crate) fn freeze(
    stack: &mut Vec<usize>,
    code: &mut Vec<Bytecode>,
    types: &mut Vec<Type>,
    a: AttrId,
    Ghost(attrs): Ghost<nat>,
) -> (ok: bool)
    ensures
        ok == (lower_freeze(a, lift_state(old(code)@, old(types)@, old(stack)@, attrs)) is Some),
        ok ==> Some(lift_state(final(code)@, final(types)@, final(stack)@, attrs)) == lower_freeze(
            a,
            lift_state(old(code)@, old(types)@, old(stack)@, attrs),
        ),
{
    broadcast use lemma_type_view;

    let ghost st0 = lift_state(code@, types@, stack@, attrs);
    if stack.len() < 1 {
        return false;
    }
    let top = stack[stack.len() - 1];
    if top >= types.len() {
        return false;
    }
    let frozen: Option<Type> = match &types[top] {
        Type::Reference(is_mut, inner) => {
            if *is_mut {
                Some(Type::Reference(false, Box::new(clone_type(inner))))
            } else {
                None
            }
        },
        _ => None,
    };
    match frozen {
        Some(ty) => unary(stack, code, types, a, Operation::FreezeRef, ty, Ghost(attrs)),
        None => {
            stack.pop();
            assert(stack@ =~= st0.pop(1).stack);
            true
        },
    }
}

pub(crate) fn read_ref(
    stack: &mut Vec<usize>,
    code: &mut Vec<Bytecode>,
    types: &mut Vec<Type>,
    a: AttrId,
    Ghost(attrs): Ghost<nat>,
) -> (ok: bool)
    ensures
        ok == (lower_read_ref(a, lift_state(old(code)@, old(types)@, old(stack)@, attrs)) is Some),
        ok ==> Some(lift_state(final(code)@, final(types)@, final(stack)@, attrs))
            == lower_read_ref(a, lift_state(old(code)@, old(types)@, old(stack)@, attrs)),
{
    broadcast use lemma_type_view;

    if stack.len() < 1 {
        return false;
    }
    let top = stack[stack.len() - 1];
    if top >= types.len() {
        return false;
    }
    let pointee: Option<Type> = match &types[top] {
        Type::Reference(_, inner) => Some(clone_type(inner)),
        _ => None,
    };
    match pointee {
        Some(ty) => unary(stack, code, types, a, Operation::ReadRef, ty, Ghost(attrs)),
        None => false,
    }
}

/// An arithmetic operation: the result has the type of the left operand.
pub(crate) fn arith(
    stack: &mut Vec<usize>,
    code: &mut Vec<Bytecode>,
    types: &mut Vec<Type>,
    a: AttrId,
    op: Operation,
    Ghost(attrs): Ghost<nat>,
) -> (ok: bool)
    ensures
        ok == (lower_arith(a, lift_state(old(code)@, old(types)@, old(stack)@, attrs), op@)
            is Some),
        ok ==> Some(lift_state(final(code)@, final(types)@, final(stack)@, attrs)) == lower_arith(
            a,
            lift_state(old(code)@, old(types)@, old(stack)@, attrs),
            op@,
        ),
{
    if stack.len() < 2 {
        return false;
    }
    let left = stack[stack.len() - 2];
    match type_of(types, left) {
        Some(ty) => binary(stack, code, types, a, op, ty, Ghost(attrs)),
        None => false,
    }
}

pub(crate) fn invoke(
    stack: &mut Vec<usize>,
    code: &mut Vec<Bytecode>,
    types: &mut Vec<Type>,
    a: AttrId,
    op: Operation,
    n: usize,
    tys: Vec<Type>,
    Ghost(attrs): Ghost<nat>,
) -> (ok: bool)
    ensures
        ok == (lift_state(old(code)@, old(types)@, old(stack)@, attrs).invoke(
            a,
            op@,
            n as nat,
            types_view(tys@),
        ) is Some),
        ok ==> Some(lift_state(final(code)@, final(types)@, final(stack)@, attrs)) == lift_state(
            old(code)@,
            old(types)@,
            old(stack)@,
            attrs,
        ).invoke(a, op@, n as nat, types_view(tys@)),
{
    let ghost st0 = lift_state(code@, types@, stack@, attrs);
    match pop_n(stack, n) {
        Some(srcs) => {
            assert(lift_state(code@, types@, stack@, attrs) == st0.pop(n as nat));
            let dsts = push_all(stack, types, tys, Ghost(code@), Ghost(attrs));
            emit(code, Bytecode::Call(a, dsts, op, srcs, None));
            true
        },
        None => false,
    }
}

/// The types of `tys` with `actuals` put for their parameters.
pub(crate) fn instantiate_types(tys: &Vec<Type>, actuals: &Vec<Type>) -> (r: Option<Vec<Type>>)
    ensures
        r is Some <==> instantiate_all(types_view(tys@), types_view(actuals@)) is Some,
        r matches Some(v) ==> Some(types_view(v@)) == instantiate_all(
            types_view(tys@),
            types_view(actuals@),
        ),
{
    let mut out: Vec<Type> = Vec::new();
    let mut i: usize = 0;
    while i < tys.len()
        invariant
            i <= tys.len(),
            out.len() == i,
            forall|j: int|
                0 <= j < i ==> crate::move_ir::types::instantiable(
                    #[trigger] types_view(tys@)[j],
                    types_view(actuals@).len(),
                ),
            forall|j: int|
                0 <= j < i ==> out@[j]@ == crate::move_ir::types::instantiate_view(
                    tys@[j]@,
                    types_view(actuals@),
                ),
        decreases tys.len() - i,
    {
        match tys[i].try_instantiate(actuals) {
            Some(t) => {
                out.push(t);
            },
            None => {
                assert(!crate::move_ir::types::instantiable(
                    types_view(tys@)[i as int],
                    types_view(actuals@).len(),
                ));
                return None;
            },
        }
        i += 1;
    }
    assert(types_view(out@) =~= instantiate_all(types_view(tys@), types_view(actuals@))->0);
    Some(out)
}

pub(crate) fn vec_pack(
    stack: &mut Vec<usize>,
    code: &mut Vec<Bytecode>,
    types: &mut Vec<Type>,
    a: AttrId,
    ty: &Type,
    n: usize,
    empty_op: Operation,
    push_op: &Operation,
    Ghost(attrs): Ghost<nat>,
) -> (ok: bool)
    ensures
        ok == (n <= old(stack)@.len()),
        ok ==> lift_state(final(code)@, final(types)@, final(stack)@, attrs) == vec_packed(
            lift_state(old(code)@, old(types)@, old(stack)@, attrs),
            a,
            ty@,
            n as nat,
            empty_op@,
            push_op@,
        ),
{
    broadcast use lemma_type_view;

    let ghost st0 = lift_state(code@, types@, stack@, attrs);
    let operands = match pop_n(stack, n) {
        Some(v) => v,
        None => {
            return false;
        },
    };
    let t = push_fresh(stack, types, Type::Vector(Box::new(clone_type(ty))));
    let dsts = vec![t];
    let none: Vec<usize> = Vec::new();
    assert(dsts@ =~= seq![st0.fresh()]);
    assert(none@ =~= Seq::<usize>::empty());
    emit(code, Bytecode::Call(a, dsts, empty_op, none, None));
    let ghost s1 = lift_state(code@, types@, stack@, attrs);
    assert(s1 == st0.pop(n as nat).push_fresh(vector(ty@)).emit(
        call(a, seq![st0.fresh()], empty_op@, Seq::empty()),
    ));
    if n > 0 {
        let m = new_temp(
            types,
            Type::Reference(true, Box::new(Type::Vector(Box::new(clone_type(ty))))),
        );
        let dsts = vec![m];
        let srcs = vec![t];
        assert(dsts@ =~= seq![s1.fresh()]);
        assert(srcs@ =~= seq![st0.fresh()]);
        emit(code, Bytecode::Call(a, dsts, Operation::BorrowLoc, srcs, None));
        let ghost s2 = lift_state(code@, types@, stack@, attrs);
        let ghost pushes = Seq::new(
            n as nat,
            |i: int| call(a, Seq::empty(), push_op@, seq![m, st0.top_n(n as nat)[i]]),
        );
        let mut i: usize = 0;
        assert(s2.emit_all(pushes.subrange(0, 0)).code =~= s2.code);
        while i < n
            invariant
                i <= n,
                operands@ == st0.top_n(n as nat),
                operands@.len() == n,
                pushes == Seq::new(
                    n as nat,
                    |i: int| call(a, Seq::empty(), push_op@, seq![m, st0.top_n(n as nat)[i]]),
                ),
                code_view(code@) == s2.emit_all(pushes.subrange(0, i as int)).code,
            decreases n - i,
        {
            let dsts: Vec<usize> = Vec::new();
            let srcs = vec![m, operands[i]];
            assert(dsts@ =~= Seq::<usize>::empty());
            assert(srcs@ =~= seq![m, st0.top_n(n as nat)[i as int]]);
            let ghost before = code_view(code@);
            emit(code, Bytecode::Call(a, dsts, clone_operation(push_op), srcs, None));
            assert(code_view(code@) =~= s2.emit_all(pushes.subrange(0, i + 1)).code) by {
                assert(pushes.subrange(0, i + 1) =~= pushes.subrange(0, i as int).push(
                    pushes[i as int],
                ));
            }
            i += 1;
        }
        assert(pushes.subrange(0, n as int) =~= pushes);
    }
    true
}

pub(crate) fn vec_unpack(
    stack: &mut Vec<usize>,
    code: &mut Vec<Bytecode>,
    types: &mut Vec<Type>,
    a: AttrId,
    ty: &Type,
    n: usize,
    pop_op: &Operation,
    destroy_op: Operation,
    Ghost(attrs): Ghost<nat>,
) -> (ok: bool)
    ensures
        ok == (old(stack)@.len() >= 1),
        ok ==> lift_state(final(code)@, final(types)@, final(stack)@, attrs) == vec_unpacked(
            lift_state(old(code)@, old(types)@, old(stack)@, attrs),
            a,
            ty@,
            n as nat,
            pop_op@,
            destroy_op@,
        ),
{
    broadcast use lemma_type_view;

    let ghost st0 = lift_state(code@, types@, stack@, attrs);
    let x = match stack.pop() {
        Some(x) => x,
        None => {
            return false;
        },
    };
    assert(stack@ =~= st0.pop(1).stack);
    let ghost s1 = lift_state(code@, types@, stack@, attrs);
    let mut tys: Vec<Type> = Vec::new();
    let mut k: usize = 0;
    while k < n
        invariant
            k <= n,
            tys@.len() == k,
            forall|j: int| 0 <= j < k ==> tys@[j]@ == ty@,
        decreases n - k,
    {
        tys.push(clone_type(ty));
        k += 1;
    }
    assert(types_view(tys@) =~= Seq::new(n as nat, |i: int| ty@));
    let temps = push_all(stack, types, tys, Ghost(code@), Ghost(attrs));
    let ghost s2 = lift_state(code@, types@, stack@, attrs);
    if n > 0 {
        let m = new_temp(
            types,
            Type::Reference(true, Box::new(Type::Vector(Box::new(clone_type(ty))))),
        );
        let dsts = vec![m];
        let srcs = vec![x];
        assert(dsts@ =~= seq![s2.fresh()]);
        assert(srcs@ =~= seq![st0.top(0)]);
        emit(code, Bytecode::Call(a, dsts, Operation::BorrowLoc, srcs, None));
        let ghost s3 = lift_state(code@, types@, stack@, attrs);
        let ghost pops = Seq::new(
            n as nat,
            |i: int| call(a, seq![s1.fresh_n(n as nat)[i]], pop_op@, seq![m]),
        );
        let mut i: usize = 0;
        assert(s3.emit_all(pops.subrange(0, 0)).code =~= s3.code);
        while i < n
            invariant
                i <= n,
                temps@ == s1.fresh_n(n as nat),
                pops == Seq::new(
                    n as nat,
                    |i: int| call(a, seq![s1.fresh_n(n as nat)[i]], pop_op@, seq![m]),
                ),
                code_view(code@) == s3.emit_all(pops.subrange(0, i as int)).code,
            decreases n - i,
        {
            let dsts = vec![temps[i]];
            let srcs = vec![m];
            assert(dsts@ =~= seq![s1.fresh_n(n as nat)[i as int]]);
            assert(srcs@ =~= seq![m]);
            emit(code, Bytecode::Call(a, dsts, clone_operation(pop_op), srcs, None));
            assert(code_view(code@) =~= s3.emit_all(pops.subrange(0, i + 1)).code) by {
                assert(pops.subrange(0, i + 1) =~= pops.subrange(0, i as int).push(pops[i as int]));
            }
            i += 1;
        }
        assert(pops.subrange(0, n as int) =~= pops);
    }
    let dsts: Vec<usize> = Vec::new();
    let srcs = vec![x];
    assert(dsts@ =~= Seq::<usize>::empty());
    assert(srcs@ =~= seq![st0.top(0)]);
    emit(code, Bytecode::Call(a, dsts, destroy_op, srcs, None));
    true
}

} // verus!
