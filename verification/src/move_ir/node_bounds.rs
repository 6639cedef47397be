use vstd::prelude::*;
use crate::move_ir::bytecode::{code_view, BytecodeV, OperationV};
use crate::move_ir::data_dependency::{analysis, binary_max, callee_of, lookup, set_results, set_unpacked, step, step_call, type_max, uint_of, unpacked_max, Callee, NodeV};
use crate::move_ir::bytecode::AssignKind;
use crate::move_ir::generate_bytecode::{lift_function, StacklessBytecodeGenerator};
use crate::move_ir::lifted_types::{instr_typed, lemma_lifted_typed};
use crate::move_ir::packages::Packages;
use crate::move_ir::types::{types_view, TypeV};

verus! {

/// The bound `max`, if there is one, is within the type `ty`, if that is
/// an unsigned integer type.
pub open spec fn within(max: Option<nat>, ty: TypeV) -> bool {
    match (max, type_max(ty)) {
        (Some(m), Some(top)) => m <= top,
        _ => true,
    }
}

/// Every temp of an unsigned integer type whose tree has a bound has one
/// within its type.
pub open spec fn bounded(types: Seq<TypeV>, table: Seq<Option<NodeV>>) -> bool {
    &&& table.len() == types.len()
    &&& forall|t: int|
        0 <= t < table.len() ==> ((#[trigger] table[t]) matches Some(n) ==> within(n.max, types[t]))
}

/// The instruction handles values of one type as one type: a constant is
/// loaded into a temp that can hold it, an assignment is between temps
/// with the same largest value, a difference, a quotient and a right
/// shift have the largest value of their left operand, a remainder also
/// that of its right operand, and what is unpacked with a bound of its
/// own fits its temp.
pub open spec fn typed(types: Seq<TypeV>, table: Seq<Option<NodeV>>, instr: BytecodeV) -> bool {
    match instr {
        BytecodeV::Load(_, d, c) => d < types.len() ==> within(uint_of(c), types[d as int]),
        BytecodeV::Assign(_, d, s, _) => d < types.len() && s < types.len() ==> type_max(
            types[d as int],
        ) == type_max(types[s as int]),
        BytecodeV::Call(_, dsts, op, srcs, _) => {
            if op is Sub || op is Div || op is Shr || op is Mod {
                dsts.len() >= 1 && srcs.len() >= 2 && dsts[0] < types.len() && srcs[0]
                    < types.len() && srcs[1] < types.len() ==> type_max(types[dsts[0] as int])
                    == type_max(types[srcs[0] as int]) && (op is Mod ==> type_max(
                    types[dsts[0] as int],
                ) == type_max(types[srcs[1] as int]))
            } else if op is Unpack {
                srcs.len() >= 1 && lookup(table, srcs[0]) is Some ==> forall|i: int|
                    0 <= i < dsts.len() && #[trigger] dsts[i] < types.len() ==> within(
                        unpacked_max(
                            lookup(table, srcs[0])->0,
                            dsts.len(),
                            i,
                            types[dsts[i] as int],
                        ),
                        types[dsts[i] as int],
                    )
            } else {
                true
            }
        },
        _ => true,
    }
}

proof fn lemma_set_results_bounded(
    types: Seq<TypeV>,
    table: Seq<Option<NodeV>>,
    instr: BytecodeV,
    dsts: Seq<usize>,
    nodes: Seq<NodeV>,
    k: nat,
)
    requires
        bounded(types, table),
        k <= dsts.len(),
    ensures
        set_results(types, table, instr, dsts, nodes, k) matches Some(t) ==> bounded(types, t),
    decreases k,
{
    if k > 0 {
        lemma_set_results_bounded(types, table, instr, dsts, nodes, (k - 1) as nat);
    }
}

proof fn lemma_set_unpacked_bounded(
    types: Seq<TypeV>,
    table: Seq<Option<NodeV>>,
    instr: BytecodeV,
    dsts: Seq<usize>,
    packed: NodeV,
    k: nat,
)
    requires
        bounded(types, table),
        k <= dsts.len(),
        forall|i: int|
            0 <= i < dsts.len() && #[trigger] dsts[i] < types.len() ==> within(
                unpacked_max(packed, dsts.len(), i, types[dsts[i] as int]),
                types[dsts[i] as int],
            ),
    ensures
        set_unpacked(types, table, instr, dsts, packed, k) matches Some(t) ==> bounded(types, t),
    decreases k,
{
    if k > 0 {
        lemma_set_unpacked_bounded(types, table, instr, dsts, packed, (k - 1) as nat);
        if dsts[k - 1] < types.len() {
            assert(within(
                unpacked_max(packed, dsts.len(), k - 1, types[dsts[k - 1] as int]),
                types[dsts[k - 1] as int],
            ));
        }
    }
}

proof fn lemma_binary_bounded(op: OperationV, a: nat, b: nat, c1: bool, c2: bool, ty: TypeV, top: nat)
    requires
        type_max(ty) == Some(top),
        op.is_arithmetic(),
        op is Sub || op is Div || op is Shr || op is Mod ==> a <= top,
        op is Mod ==> b <= top,
    ensures
        binary_max(op, a, b, c1, c2, ty) matches Some((m, _)) ==> m <= top,
{
    if op is Mod && b != 0 {
        assert((a % b) <= a) by (nonlinear_arith)
            requires
                b > 0,
        ;
    }
}

/// A step of the analysis on a typed instruction keeps every bound within
/// the type of its temp.
pub proof fn lemma_step_bounded(
    types: Seq<TypeV>,
    table: Seq<Option<NodeV>>,
    instr: BytecodeV,
    callee: Callee,
)
    requires
        bounded(types, table),
        typed(types, table, instr),
    ensures
        step(types, table, instr, callee) matches Some(t) ==> bounded(types, t),
{
    match instr {
        BytecodeV::Call(_, dsts, op, srcs, _) => {
            if op is Function {
                match callee {
                    Callee::Stuck => {},
                    Callee::Returns(nodes) => {
                        lemma_set_results_bounded(types, table, instr, dsts, nodes, dsts.len());
                    },
                    Callee::Arguments => {
                        match crate::move_ir::data_dependency::lookup_all(table, srcs) {
                            Some(nodes) => {
                                lemma_set_results_bounded(
                                    types,
                                    table,
                                    instr,
                                    dsts,
                                    nodes,
                                    dsts.len(),
                                );
                            },
                            None => {},
                        }
                    },
                }
            } else if op.is_arithmetic() {
                if step_call(types, table, instr, dsts, op, srcs, callee) is Some {
                    let l = lookup(table, srcs[0])->0;
                    let r = lookup(table, srcs[1])->0;
                    let ty = types[dsts[0] as int];
                    assert(table[srcs[0] as int] == Some(l));
                    assert(table[srcs[1] as int] == Some(r));
                    if type_max(ty) is Some {
                        lemma_binary_bounded(
                            op,
                            l.max->0,
                            r.max->0,
                            l.is_constant,
                            r.is_constant,
                            ty,
                            type_max(ty)->0,
                        );
                    }
                }
            } else if op is Unpack {
                if srcs.len() >= 1 && lookup(table, srcs[0]) is Some {
                    lemma_set_unpacked_bounded(
                        types,
                        table,
                        instr,
                        dsts,
                        lookup(table, srcs[0])->0,
                        dsts.len(),
                    );
                }
            }
        },
        BytecodeV::Assign(_, d, s, _) => {
            if d < table.len() && lookup(table, s) is Some {
                assert(table[s as int] == lookup(table, s));
            }
        },
        _ => {},
    }
}

/// Every instruction among the first `n` of the function is typed for the
/// table that the analysis has reached before it.
pub open spec fn typed_upto(
    p: &Packages,
    g: &StacklessBytecodeGenerator,
    f: int,
    depth: nat,
    n: nat,
) -> bool {
    forall|k: int|
        0 <= k < n ==> (#[trigger] analysis(p, g, f, depth, k as nat) matches Some(t) ==> typed(
            types_view(g.functions@[f].local_types@),
            t,
            code_view(g.functions@[f].code@)[k],
        ))
}

/// In a function whose instructions are typed, the analysis gives every
/// temp of an unsigned integer type a bound that is at most the largest
/// value of that type, where it gives one.
pub proof fn lemma_bounds_within_types(
    p: &Packages,
    g: &StacklessBytecodeGenerator,
    f: int,
    depth: nat,
    n: nat,
)
    requires
        typed_upto(p, g, f, depth, n),
    ensures
        analysis(p, g, f, depth, n) matches Some(t) ==> bounded(
            types_view(g.functions@[f].local_types@),
            t,
        ),
    decreases n,
{
    let types = types_view(g.functions@[f].local_types@);
    if n > 0 {
        lemma_bounds_within_types(p, g, f, depth, (n - 1) as nat);
        match analysis(p, g, f, depth, (n - 1) as nat) {
            Some(t) => {
                let instr = code_view(g.functions@[f].code@)[n - 1];
                lemma_step_bounded(types, t, instr, callee_of(p, g, instr, depth));
            },
            None => {},
        }
    }
}

/// No tree under `n` is that of a parameter.
pub open spec fn param_free(n: NodeV) -> bool
    decreases n,
{
    &&& !(n.value is ParamType)
    &&& forall|i: int| 0 <= i < n.subnodes.len() ==> param_free(#[trigger] n.subnodes[i])
}

/// A tree that is flagged as constant has a bound, unless it is the tree
/// of a constant that is no unsigned integer, and holds no parameter.
pub open spec fn flag_holds(n: NodeV) -> bool {
    n.is_constant ==> (n.max is Some || n.value is Const) && param_free(n)
}

pub open spec fn flags_hold(table: Seq<Option<NodeV>>) -> bool {
    forall|t: int| 0 <= t < table.len() ==> ((#[trigger] table[t]) matches Some(n) ==> flag_holds(n))
}

proof fn lemma_set_results_flags(
    types: Seq<TypeV>,
    table: Seq<Option<NodeV>>,
    instr: BytecodeV,
    dsts: Seq<usize>,
    nodes: Seq<NodeV>,
    k: nat,
)
    requires
        flags_hold(table),
        k <= dsts.len(),
    ensures
        set_results(types, table, instr, dsts, nodes, k) matches Some(t) ==> flags_hold(t),
    decreases k,
{
    if k > 0 {
        lemma_set_results_flags(types, table, instr, dsts, nodes, (k - 1) as nat);
    }
}

proof fn lemma_set_unpacked_flags(
    types: Seq<TypeV>,
    table: Seq<Option<NodeV>>,
    instr: BytecodeV,
    dsts: Seq<usize>,
    packed: NodeV,
    k: nat,
)
    requires
        flags_hold(table),
        k <= dsts.len(),
    ensures
        set_unpacked(types, table, instr, dsts, packed, k) matches Some(t) ==> flags_hold(t),
    decreases k,
{
    if k > 0 {
        lemma_set_unpacked_flags(types, table, instr, dsts, packed, (k - 1) as nat);
    }
}

/// A step of the analysis keeps the constant flags true to their trees.
pub proof fn lemma_step_flags(
    types: Seq<TypeV>,
    table: Seq<Option<NodeV>>,
    instr: BytecodeV,
    callee: Callee,
)
    requires
        flags_hold(table),
    ensures
        step(types, table, instr, callee) matches Some(t) ==> flags_hold(t),
{
    match instr {
        BytecodeV::Call(_, dsts, op, srcs, _) => {
            if op is Function {
                match callee {
                    Callee::Stuck => {},
                    Callee::Returns(nodes) => {
                        lemma_set_results_flags(types, table, instr, dsts, nodes, dsts.len());
                    },
                    Callee::Arguments => {
                        match crate::move_ir::data_dependency::lookup_all(table, srcs) {
                            Some(nodes) => {
                                lemma_set_results_flags(
                                    types,
                                    table,
                                    instr,
                                    dsts,
                                    nodes,
                                    dsts.len(),
                                );
                            },
                            None => {},
                        }
                    },
                }
            } else if op.is_arithmetic() {
                if step_call(types, table, instr, dsts, op, srcs, callee) is Some {
                    let l = lookup(table, srcs[0])->0;
                    let r = lookup(table, srcs[1])->0;
                    assert(table[srcs[0] as int] == Some(l));
                    assert(table[srcs[1] as int] == Some(r));
                    let t = step_call(types, table, instr, dsts, op, srcs, callee)->0;
                    let n = t[dsts[0] as int]->0;
                    assert(n.subnodes == seq![l, r]);
                    if n.is_constant {
                        assert(l.is_constant && r.is_constant);
                        assert(flag_holds(l) && flag_holds(r));
                        assert forall|i: int| 0 <= i < n.subnodes.len() implies param_free(
                            #[trigger] n.subnodes[i],
                        ) by {}
                    }
                }
            } else if op.is_cast() {
                if step_call(types, table, instr, dsts, op, srcs, callee) is Some {
                    let s = lookup(table, srcs[0])->0;
                    assert(table[srcs[0] as int] == Some(s));
                    let t = step_call(types, table, instr, dsts, op, srcs, callee)->0;
                    let n = t[dsts[0] as int]->0;
                    assert(n.subnodes == seq![s]);
                    if n.is_constant {
                        assert(flag_holds(s));
                        assert forall|i: int| 0 <= i < n.subnodes.len() implies param_free(
                            #[trigger] n.subnodes[i],
                        ) by {}
                    }
                }
            } else if op is Unpack {
                if srcs.len() >= 1 && lookup(table, srcs[0]) is Some {
                    lemma_set_unpacked_flags(
                        types,
                        table,
                        instr,
                        dsts,
                        lookup(table, srcs[0])->0,
                        dsts.len(),
                    );
                }
            }
        },
        _ => {},
    }
}

/// A tree that the analysis flags as constant has a bound, unless it is
/// the tree of a constant that is no unsigned integer, and holds no
/// parameter.
pub proof fn lemma_constant_flags(
    p: &Packages,
    g: &StacklessBytecodeGenerator,
    f: int,
    depth: nat,
    n: nat,
)
    ensures
        analysis(p, g, f, depth, n) matches Some(t) ==> flags_hold(t),
    decreases n,
{
    let types = types_view(g.functions@[f].local_types@);
    if n > 0 {
        lemma_constant_flags(p, g, f, depth, (n - 1) as nat);
        match analysis(p, g, f, depth, (n - 1) as nat) {
            Some(t) => {
                let instr = code_view(g.functions@[f].code@)[n - 1];
                lemma_step_flags(types, t, instr, callee_of(p, g, instr, depth));
            },
            None => {},
        }
    }
}

/// What lowering cannot know of an instruction: that a store is between
/// temps with the same largest value, that a remainder has the largest
/// value of its right operand, and that what is unpacked with a bound of
/// its own fits its temp.
pub open spec fn stores_typed(types: Seq<TypeV>, table: Seq<Option<NodeV>>, instr: BytecodeV) -> bool {
    match instr {
        BytecodeV::Assign(_, d, s, AssignKind::Store) => d < types.len() && s < types.len()
            ==> type_max(types[d as int]) == type_max(types[s as int]),
        BytecodeV::Call(_, dsts, OperationV::Mod, srcs, _) => dsts.len() >= 1 && srcs.len() >= 2
            && dsts[0] < types.len() && srcs[1] < types.len() ==> type_max(types[dsts[0] as int])
            == type_max(types[srcs[1] as int]),
        BytecodeV::Call(_, dsts, op, srcs, _) => op is Unpack ==> typed(types, table, instr),
        _ => true,
    }
}

/// An instruction that is typed as lowering types it, and whose stores,
/// remainders and unpackings are typed, is typed.
pub proof fn lemma_typed_of_lowered(types: Seq<TypeV>, table: Seq<Option<NodeV>>, instr: BytecodeV)
    requires
        instr_typed(types, instr),
        stores_typed(types, table, instr),
    ensures
        typed(types, table, instr),
{
}

/// The stores, remainders and unpackings among the first `n` instructions
/// of the function are typed for the table that the analysis has reached
/// before them.
pub open spec fn stores_typed_upto(
    p: &Packages,
    g: &StacklessBytecodeGenerator,
    f: int,
    depth: nat,
    n: nat,
) -> bool {
    forall|k: int|
        0 <= k < n ==> (#[trigger] analysis(p, g, f, depth, k as nat) matches Some(t)
            ==> stores_typed(
            types_view(g.functions@[f].local_types@),
            t,
            code_view(g.functions@[f].code@)[k],
        ))
}

/// In a lifted function whose stores, remainders and unpackings are
/// typed, the analysis gives every temp of an unsigned integer type a
/// bound that is at most the largest value of that type, where it gives
/// one.
pub proof fn lemma_lifted_bounds_within_types(
    p: &Packages,
    g: &StacklessBytecodeGenerator,
    f: int,
    depth: nat,
)
    requires
        g.module.bounds_ok(),
        0 <= f < g.module.function_defs@.len(),
        lift_function(g.ctx(), f) matches Some(l) && g.functions@[f].lifted_code(l),
        stores_typed_upto(p, g, f, depth, g.functions@[f].code@.len()),
    ensures
        analysis(p, g, f, depth, g.functions@[f].code@.len()) matches Some(t) ==> bounded(
            types_view(g.functions@[f].local_types@),
            t,
        ),
{
    let types = types_view(g.functions@[f].local_types@);
    let code = code_view(g.functions@[f].code@);
    let n = g.functions@[f].code@.len();
    lemma_lifted_typed(g.ctx(), f, g.functions@[f]);
    assert forall|k: int| 0 <= k < n implies (#[trigger] analysis(p, g, f, depth, k as nat) matches Some(
        t,
    ) ==> typed(types, t, code[k])) by {
        match analysis(p, g, f, depth, k as nat) {
            Some(t) => {
                assert(instr_typed(types, code[k]));
                lemma_typed_of_lowered(types, t, code[k]);
            },
            None => {},
        }
    }
    lemma_bounds_within_types(p, g, f, depth, n);
}

/// Every temp of an unsigned integer type that has a tree has a bound.
pub open spec fn numbered(types: Seq<TypeV>, table: Seq<Option<NodeV>>) -> bool {
    &&& table.len() == types.len()
    &&& forall|t: int|
        0 <= t < table.len() ==> ((#[trigger] table[t]) matches Some(n) ==> (type_max(types[t]) is Some
            ==> n.max is Some))
}

proof fn lemma_set_results_numbered(
    types: Seq<TypeV>,
    table: Seq<Option<NodeV>>,
    instr: BytecodeV,
    dsts: Seq<usize>,
    nodes: Seq<NodeV>,
    k: nat,
)
    requires
        numbered(types, table),
        k <= dsts.len(),
    ensures
        set_results(types, table, instr, dsts, nodes, k) matches Some(t) ==> numbered(types, t),
    decreases k,
{
    if k > 0 {
        lemma_set_results_numbered(types, table, instr, dsts, nodes, (k - 1) as nat);
    }
}

proof fn lemma_set_unpacked_numbered(
    types: Seq<TypeV>,
    table: Seq<Option<NodeV>>,
    instr: BytecodeV,
    dsts: Seq<usize>,
    packed: NodeV,
    k: nat,
)
    requires
        numbered(types, table),
        k <= dsts.len(),
    ensures
        set_unpacked(types, table, instr, dsts, packed, k) matches Some(t) ==> numbered(types, t),
    decreases k,
{
    if k > 0 {
        lemma_set_unpacked_numbered(types, table, instr, dsts, packed, (k - 1) as nat);
    }
}

/// A step of the analysis on an instruction of lifted code keeps a bound
/// for every temp of an unsigned integer type.
pub proof fn lemma_step_numbered(
    types: Seq<TypeV>,
    table: Seq<Option<NodeV>>,
    instr: BytecodeV,
    callee: Callee,
)
    requires
        numbered(types, table),
        instr_typed(types, instr),
        stores_typed(types, table, instr),
    ensures
        step(types, table, instr, callee) matches Some(t) ==> numbered(types, t),
{
    match instr {
        BytecodeV::Call(_, dsts, op, srcs, _) => {
            if op is Function {
                match callee {
                    Callee::Stuck => {},
                    Callee::Returns(nodes) => {
                        lemma_set_results_numbered(types, table, instr, dsts, nodes, dsts.len());
                    },
                    Callee::Arguments => {
                        match crate::move_ir::data_dependency::lookup_all(table, srcs) {
                            Some(nodes) => {
                                lemma_set_results_numbered(
                                    types,
                                    table,
                                    instr,
                                    dsts,
                                    nodes,
                                    dsts.len(),
                                );
                            },
                            None => {},
                        }
                    },
                }
            } else if op is Unpack {
                if srcs.len() >= 1 && lookup(table, srcs[0]) is Some {
                    lemma_set_unpacked_numbered(
                        types,
                        table,
                        instr,
                        dsts,
                        lookup(table, srcs[0])->0,
                        dsts.len(),
                    );
                }
            }
        },
        BytecodeV::Assign(_, d, s, _) => {
            if d < table.len() && lookup(table, s) is Some {
                assert(table[s as int] == lookup(table, s));
            }
        },
        _ => {},
    }
}

/// In a lifted function whose stores, remainders and unpackings are
/// typed, the analysis gives every temp of an unsigned integer type that
/// has a tree a bound.
pub proof fn lemma_lifted_numbers_bounded(
    p: &Packages,
    g: &StacklessBytecodeGenerator,
    f: int,
    depth: nat,
    n: nat,
)
    requires
        g.module.bounds_ok(),
        0 <= f < g.module.function_defs@.len(),
        lift_function(g.ctx(), f) matches Some(l) && g.functions@[f].lifted_code(l),
        n <= g.functions@[f].code@.len(),
        stores_typed_upto(p, g, f, depth, n),
    ensures
        analysis(p, g, f, depth, n) matches Some(t) ==> numbered(
            types_view(g.functions@[f].local_types@),
            t,
        ),
    decreases n,
{
    let types = types_view(g.functions@[f].local_types@);
    let code = code_view(g.functions@[f].code@);
    if n > 0 {
        lemma_lifted_numbers_bounded(p, g, f, depth, (n - 1) as nat);
        match analysis(p, g, f, depth, (n - 1) as nat) {
            Some(t) => {
                lemma_lifted_typed(g.ctx(), f, g.functions@[f]);
                assert(instr_typed(types, code[n - 1]));
                lemma_step_numbered(types, t, code[n - 1], callee_of(p, g, code[n - 1], depth));
            },
            None => {},
        }
    }
}

} // verus!
