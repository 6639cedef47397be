use vstd::prelude::*;
use crate::move_ir::bytecode::{
    code_view, AbortAction, AttrId, BorrowNode, Bytecode, BytecodeV, Operation, OperationV,
};
use crate::move_ir::control_flow_graph::{Block, BlockContent, BlockId, StacklessControlFlowGraph};
use crate::move_ir::generate_bytecode::FunctionInfo;
use crate::move_ir::types::{types_view, Type, TypeV};
use crate::utils::graph::{back_edges, reducible, FlowGraph, NaturalLoop};

verus! {

/// The natural loops that share a header, with what they may change.
#[derive(Debug, PartialEq, Eq)]
pub struct FatLoop {
    /// Assertions that hold on every entry of the loop; none are read
    /// from compiled modules.
    pub invariants: Vec<(usize, AttrId)>,
    /// The temps whose value an instruction of the loop may change, in
    /// ascending order.
    pub val_targets: Vec<usize>,
    /// The temps that hold a mutable reference which an instruction of
    /// the loop may write through, in ascending order, each with whether
    /// the reference itself may be replaced.
    pub mut_targets: Vec<(usize, bool)>,
    /// The offsets of the last instructions of the blocks that lead back
    /// to the header, in ascending order.
    pub back_edges: Vec<usize>,
    pub sub_loops: Vec<NaturalLoop>,
}

/// The fat loops of a function, by their headers in ascending order.
pub struct LoopAnnotation {
    pub fat_loops: Vec<(BlockId, FatLoop)>,
}

/// The temp `t` holds a mutable reference.
pub open spec fn is_mut_temp(types: Seq<TypeV>, t: usize) -> bool {
    t < types.len() && Type::spec_is_mutable_reference(types[t as int])
}

/// Those among the first `k` of `temps` that hold no mutable reference.
pub open spec fn value_temps(types: Seq<TypeV>, temps: Seq<usize>, k: nat) -> Seq<usize>
    decreases k,
{
    if k == 0 {
        Seq::empty()
    } else if is_mut_temp(types, temps[k - 1]) {
        value_temps(types, temps, (k - 1) as nat)
    } else {
        value_temps(types, temps, (k - 1) as nat).push(temps[k - 1])
    }
}

/// Those among the first `k` of `temps` that hold a mutable reference,
/// each with the flag `full`.
pub open spec fn ref_temps(types: Seq<TypeV>, temps: Seq<usize>, full: bool, k: nat) -> Seq<
    (usize, bool),
>
    decreases k,
{
    if k == 0 {
        Seq::empty()
    } else if is_mut_temp(types, temps[k - 1]) {
        ref_temps(types, temps, full, (k - 1) as nat).push((temps[k - 1], full))
    } else {
        ref_temps(types, temps, full, (k - 1) as nat)
    }
}

/// `res`, and behind it the temp that receives the error code of an
/// abort, if the call has an abort action.
pub open spec fn with_abort(res: Seq<usize>, aa: Option<AbortAction>) -> Seq<usize> {
    match aa {
        Some(AbortAction(_, dest)) => res.push(dest),
        None => res,
    }
}

/// The temps whose value the instruction may change.
pub open spec fn modified_values(types: Seq<TypeV>, bc: BytecodeV) -> Seq<usize> {
    match bc {
        BytecodeV::Assign(_, dest, _, _) => if is_mut_temp(types, dest) {
            Seq::empty()
        } else {
            seq![dest]
        },
        BytecodeV::Load(_, dest, _) => seq![dest],
        BytecodeV::Call(_, dests, op, srcs, aa) => match op {
            OperationV::WriteBack(BorrowNode::LocalRoot(dest)) => with_abort(seq![dest], aa),
            OperationV::WriteBack(BorrowNode::Reference(_)) => with_abort(Seq::empty(), aa),
            OperationV::WriteRef => with_abort(Seq::empty(), aa),
            _ => with_abort(value_temps(types, dests, dests.len()), aa),
        },
        _ => Seq::empty(),
    }
}

/// The temps that hold a mutable reference which the instruction may
/// write through, each with whether the reference itself may be
/// replaced.
pub open spec fn modified_refs(types: Seq<TypeV>, bc: BytecodeV) -> Seq<(usize, bool)> {
    match bc {
        BytecodeV::Assign(_, dest, _, _) => if is_mut_temp(types, dest) {
            seq![(dest, true)]
        } else {
            Seq::empty()
        },
        BytecodeV::Call(_, dests, op, srcs, _) => match op {
            OperationV::WriteBack(BorrowNode::LocalRoot(_)) => Seq::empty(),
            OperationV::WriteBack(BorrowNode::Reference(dest)) => seq![(dest, false)],
            OperationV::WriteRef => if srcs.len() > 0 {
                seq![(srcs[0], false)]
            } else {
                Seq::empty()
            },
            OperationV::Function(_, _, _) => ref_temps(types, srcs, false, srcs.len()) + ref_temps(
                types,
                dests,
                true,
                dests.len(),
            ),
            _ => ref_temps(types, dests, true, dests.len()),
        },
        _ => Seq::empty(),
    }
}

fn is_mut_temp_exec(types: &Vec<Type>, t: usize) -> (r: bool)
    ensures
        r == is_mut_temp(types_view(types@), t),
{
    t < types.len() && types[t].is_mutable_reference()
}

#[verifier::loop_isolation(false)]
fn split_temps(types: &Vec<Type>, temps: &Vec<usize>, full: bool) -> (r: (Vec<usize>, Vec<(usize, bool)>))
    ensures
        r.0@ == value_temps(types_view(types@), temps@, temps@.len()),
        r.1@ == ref_temps(types_view(types@), temps@, full, temps@.len()),
{
    let ghost tv = types_view(types@);
    let mut vals: Vec<usize> = Vec::new();
    let mut refs: Vec<(usize, bool)> = Vec::new();
    let mut k: usize = 0;
    assert(vals@ =~= value_temps(tv, temps@, 0));
    assert(refs@ =~= ref_temps(tv, temps@, full, 0));
    while k < temps.len()
        invariant
            k <= temps.len(),
            vals@ == value_temps(tv, temps@, k as nat),
            refs@ == ref_temps(tv, temps@, full, k as nat),
        decreases temps.len() - k,
    {
        if is_mut_temp_exec(types, temps[k]) {
            refs.push((temps[k], full));
        } else {
            vals.push(temps[k]);
        }
        k += 1;
    }
    (vals, refs)
}

fn add_abort(res: Vec<usize>, aa: &Option<AbortAction>) -> (r: Vec<usize>)
    ensures
        r@ == with_abort(res@, *aa),
{
    let mut res = res;
    match aa {
        Some(AbortAction(_, dest)) => {
            res.push(*dest);
        },
        None => {},
    }
    res
}

/// The temps that the instruction may change: those whose value it may
/// change, and those that hold a mutable reference which it may write
/// through, each with whether the reference itself may be replaced.
pub fn modifies(bc: &Bytecode, function: &FunctionInfo) -> (r: (Vec<usize>, Vec<(usize, bool)>))
    ensures
        r.0@ == modified_values(types_view(function.local_types@), bc@),
        r.1@ == modified_refs(types_view(function.local_types@), bc@),
{
    let types = &function.local_types;
    match bc {
        Bytecode::Assign(_, dest, _, _) => {
            if is_mut_temp_exec(types, *dest) {
                (Vec::new(), vec![(*dest, true)])
            } else {
                (vec![*dest], Vec::new())
            }
        },
        Bytecode::Load(_, dest, _) => (vec![*dest], Vec::new()),
        Bytecode::Call(_, dests, op, srcs, aa) => {
            match op {
                Operation::WriteBack(node) => {
                    match node {
                        BorrowNode::LocalRoot(dest) => (add_abort(vec![*dest], aa), Vec::new()),
                        BorrowNode::Reference(dest) => (
                            add_abort(Vec::new(), aa),
                            vec![(*dest, false)],
                        ),
                        _ => {
                            let (vals, refs) = split_temps(types, dests, true);
                            (add_abort(vals, aa), refs)
                        },
                    }
                },
                Operation::WriteRef => {
                    if srcs.len() > 0 {
                        (add_abort(Vec::new(), aa), vec![(srcs[0], false)])
                    } else {
                        (add_abort(Vec::new(), aa), Vec::new())
                    }
                },
                Operation::Function(_, _, _) => {
                    let (_unused, mut from_srcs) = split_temps(types, srcs, false);
                    let (vals, mut from_dests) = split_temps(types, dests, true);
                    let ghost a = from_srcs@;
                    let ghost b = from_dests@;
                    from_srcs.append(&mut from_dests);
                    assert(from_srcs@ =~= a + b);
                    (add_abort(vals, aa), from_srcs)
                },
                _ => {
                    let (vals, refs) = split_temps(types, dests, true);
                    (add_abort(vals, aa), refs)
                },
            }
        },
        _ => (Vec::new(), Vec::new()),
    }
}

/// The block `b` is a basic block that holds the offset `k`.
pub open spec fn covers(blocks: Seq<Block>, b: usize, k: int) -> bool {
    b < blocks.len() && (blocks[b as int].content matches BlockContent::Basic { lower, upper }
        && lower <= k <= upper)
}

/// One of the first `j` blocks of `body` holds the offset `k`.
pub open spec fn body_covers(blocks: Seq<Block>, body: Seq<usize>, k: int, j: nat) -> bool
    decreases j,
{
    j > 0 && (body_covers(blocks, body, k, (j - 1) as nat) || covers(blocks, body[j - 1], k))
}

/// One of the first `i` loops holds the offset `k` in its body.
pub open spec fn loops_cover(blocks: Seq<Block>, loops: Seq<NaturalLoop>, k: int, i: nat) -> bool
    decreases i,
{
    i > 0 && (loops_cover(blocks, loops, k, (i - 1) as nat) || body_covers(
        blocks,
        loops[i - 1].loop_body@,
        k,
        loops[i - 1].loop_body@.len(),
    ))
}

/// For each offset of a code of `code_len` instructions, whether it lies
/// in the body of one of the loops.
#[verifier::loop_isolation(false)]
pub fn offsets_in_loops(
    cfg: &StacklessControlFlowGraph,
    code_len: usize,
    loops: &Vec<NaturalLoop>,
) -> (inside: Vec<bool>)
    ensures
        inside@.len() == code_len,
        forall|k: int|
            0 <= k < code_len ==> #[trigger] inside@[k] == loops_cover(
                cfg.blocks@,
                loops@,
                k,
                loops@.len(),
            ),
{
    let ghost blocks = cfg.blocks@;
    let mut inside: Vec<bool> = Vec::new();
    let mut k: usize = 0;
    while k < code_len
        invariant
            k <= code_len,
            inside@.len() == k,
            forall|x: int| 0 <= x < k ==> #[trigger] inside@[x] == false,
        decreases code_len - k,
    {
        inside.push(false);
        k += 1;
    }
    let mut i: usize = 0;
    while i < loops.len()
        invariant
            i <= loops.len(),
            inside@.len() == code_len,
            forall|x: int|
                0 <= x < code_len ==> #[trigger] inside@[x] == loops_cover(blocks, loops@, x, i as nat),
        decreases loops.len() - i,
    {
        let body = &loops[i].loop_body;
        let ghost base = inside@;
        let mut j: usize = 0;
        while j < body.len()
            invariant
                j <= body.len(),
                inside@.len() == code_len,
                forall|x: int|
                    0 <= x < code_len ==> #[trigger] inside@[x] == (base[x] || body_covers(
                        blocks,
                        body@,
                        x,
                        j as nat,
                    )),
            decreases body.len() - j,
        {
            let b = body[j];
            let ghost mid = inside@;
            if b < cfg.blocks.len() {
                match cfg.blocks[b].content {
                    BlockContent::Basic { lower, upper } => {
                        let mut x: usize = lower;
                        while x < code_len && x <= upper
                            invariant
                                lower <= x,
                                inside@.len() == code_len,
                                forall|y: int|
                                    0 <= y < code_len ==> #[trigger] inside@[y] == (mid[y] || (lower
                                        <= y < x && y <= upper)),
                            decreases code_len - x,
                        {
                            inside.set(x, true);
                            x += 1;
                        }
                    },
                    BlockContent::Dummy => {},
                }
            }
            assert forall|y: int| 0 <= y < code_len implies #[trigger] inside@[y] == (base[y]
                || body_covers(blocks, body@, y, (j + 1) as nat)) by {
                assert(mid[y] == (base[y] || body_covers(blocks, body@, y, j as nat)));
            }
            j += 1;
        }
        assert forall|x: int| 0 <= x < code_len implies #[trigger] inside@[x] == loops_cover(
            blocks,
            loops@,
            x,
            (i + 1) as nat,
        ) by {
            assert(base[x] == loops_cover(blocks, loops@, x, i as nat));
        }
        i += 1;
    }
    inside
}

/// Some instruction among the first `k` lies in a loop and may change the
/// value of the temp `t`.
pub open spec fn changes_value(
    types: Seq<TypeV>,
    code: Seq<BytecodeV>,
    inside: Seq<bool>,
    t: usize,
    k: nat,
) -> bool
    decreases k,
{
    k > 0 && (changes_value(types, code, inside, t, (k - 1) as nat) || (inside[k - 1]
        && modified_values(types, code[k - 1]).contains(t)))
}

/// Some instruction among the first `k` lies in a loop and may write
/// through the mutable reference in the temp `t`, with the flag `full`.
pub open spec fn writes_ref(
    types: Seq<TypeV>,
    code: Seq<BytecodeV>,
    inside: Seq<bool>,
    t: usize,
    full: bool,
    k: nat,
) -> bool
    decreases k,
{
    k > 0 && (writes_ref(types, code, inside, t, full, (k - 1) as nat) || (inside[k - 1]
        && modified_refs(types, code[k - 1]).contains((t, full))))
}

/// For each offset of a code of `code_len` instructions, whether it lies
/// in the body of one of the loops.
pub open spec fn inside_of(blocks: Seq<Block>, loops: Seq<NaturalLoop>, code_len: nat) -> Seq<bool> {
    Seq::new(code_len, |k: int| loops_cover(blocks, loops, k, loops.len()))
}

/// The temps below `n` whose value the loops may change, in ascending
/// order.
pub open spec fn loop_val_targets(
    types: Seq<TypeV>,
    code: Seq<BytecodeV>,
    inside: Seq<bool>,
    n: nat,
) -> Seq<usize>
    decreases n,
{
    if n == 0 {
        Seq::empty()
    } else if changes_value(types, code, inside, (n - 1) as usize, code.len()) {
        loop_val_targets(types, code, inside, (n - 1) as nat).push((n - 1) as usize)
    } else {
        loop_val_targets(types, code, inside, (n - 1) as nat)
    }
}

/// The temps below `n` with a mutable reference that the loops may write
/// through, in ascending order, each with whether the reference itself
/// may be replaced.
pub open spec fn loop_mut_targets(
    types: Seq<TypeV>,
    code: Seq<BytecodeV>,
    inside: Seq<bool>,
    n: nat,
) -> Seq<(usize, bool)>
    decreases n,
{
    if n == 0 {
        Seq::empty()
    } else {
        let t = (n - 1) as usize;
        let full = writes_ref(types, code, inside, t, true, code.len());
        if full || writes_ref(types, code, inside, t, false, code.len()) {
            loop_mut_targets(types, code, inside, (n - 1) as nat).push((t, full))
        } else {
            loop_mut_targets(types, code, inside, (n - 1) as nat)
        }
    }
}

/// A sequence with `x` behind it holds what it held before, and `x`.
pub proof fn lemma_push_contains<T>(a: Seq<T>, x: T, e: T)
    ensures
        a.push(x).contains(e) <==> a.contains(e) || x == e,
{
    let b = a.push(x);
    if a.contains(e) {
        let i = choose|i: int| 0 <= i < a.len() && a[i] == e;
        assert(b[i] == e);
    }
    if b.contains(e) {
        let i = choose|i: int| 0 <= i < b.len() && b[i] == e;
        if i < a.len() {
            assert(a[i] == e);
        }
    }
    if x == e {
        assert(b[a.len() as int] == e);
    }
}

fn falses(n: usize) -> (r: Vec<bool>)
    ensures
        r@.len() == n,
        forall|x: int| 0 <= x < n ==> #[trigger] r@[x] == false,
{
    let mut r: Vec<bool> = Vec::new();
    let mut k: usize = 0;
    while k < n
        invariant
            k <= n,
            r@.len() == k,
            forall|x: int| 0 <= x < k ==> #[trigger] r@[x] == false,
        decreases n - k,
    {
        r.push(false);
        k += 1;
    }
    r
}

/// What the loops may change: the temps whose value an instruction in a
/// loop may change, and the temps with a mutable reference that an
/// instruction in a loop may write through.
#[verifier::loop_isolation(false)]
pub fn collect_loop_targets(
    cfg: &StacklessControlFlowGraph,
    function: &FunctionInfo,
    sub_loops: &Vec<NaturalLoop>,
) -> (r: (Vec<usize>, Vec<(usize, bool)>))
    ensures
        r.0@ == loop_val_targets(
            types_view(function.local_types@),
            code_view(function.code@),
            inside_of(cfg.blocks@, sub_loops@, function.code@.len()),
            function.local_types@.len(),
        ),
        r.1@ == loop_mut_targets(
            types_view(function.local_types@),
            code_view(function.code@),
            inside_of(cfg.blocks@, sub_loops@, function.code@.len()),
            function.local_types@.len(),
        ),
{
    let code = &function.code;
    let n = function.local_types.len();
    let ghost tv = types_view(function.local_types@);
    let ghost cv = code_view(code@);
    let inside = offsets_in_loops(cfg, code.len(), sub_loops);
    let ghost ins = inside@;
    assert(ins =~= inside_of(cfg.blocks@, sub_loops@, function.code@.len()));
    let mut val = falses(n);
    let mut full = falses(n);
    let mut part = falses(n);
    let mut k: usize = 0;
    while k < code.len()
        invariant
            k <= code.len(),
            val@.len() == n,
            full@.len() == n,
            part@.len() == n,
            forall|t: int| 0 <= t < n ==> #[trigger] val@[t] == changes_value(tv, cv, ins, t as usize, k as nat),
            forall|t: int|
                0 <= t < n ==> #[trigger] full@[t] == writes_ref(tv, cv, ins, t as usize, true, k as nat),
            forall|t: int|
                0 <= t < n ==> #[trigger] part@[t] == writes_ref(tv, cv, ins, t as usize, false, k as nat),
        decreases code.len() - k,
    {
        assert(cv[k as int] == code@[k as int]@);
        let ghost val0 = val@;
        let ghost full0 = full@;
        let ghost part0 = part@;
        if inside[k] {
            let (vals, refs) = modifies(&code[k], function);
            let mut j: usize = 0;
            while j < vals.len()
                invariant
                    j <= vals.len(),
                    val@.len() == n,
                    forall|t: int|
                        0 <= t < n ==> #[trigger] val@[t] == (val0[t] || vals@.subrange(
                            0,
                            j as int,
                        ).contains(t as usize)),
                decreases vals.len() - j,
            {
                let ghost before = val@;
                if vals[j] < n {
                    val.set(vals[j], true);
                }
                assert forall|t: int| 0 <= t < n implies #[trigger] val@[t] == (val0[t]
                    || vals@.subrange(0, j + 1).contains(t as usize)) by {
                    let a = vals@.subrange(0, j as int);
                    let b = vals@.subrange(0, j + 1);
                    assert(b =~= a.push(vals@[j as int]));
                    assert(before[t] == (val0[t] || a.contains(t as usize)));
                    if a.contains(t as usize) {
                        let i = choose|i: int| 0 <= i < a.len() && a[i] == t as usize;
                        assert(b[i] == t as usize);
                    }
                    if b.contains(t as usize) {
                        let i = choose|i: int| 0 <= i < b.len() && b[i] == t as usize;
                        if i < a.len() {
                            assert(a[i] == t as usize);
                        }
                    }
                    if vals@[j as int] == t as usize {
                        assert(b[j as int] == t as usize);
                    }
                }
                j += 1;
            }
            assert(vals@.subrange(0, vals@.len() as int) =~= vals@);
            let mut j: usize = 0;
            while j < refs.len()
                invariant
                    j <= refs.len(),
                    full@.len() == n,
                    part@.len() == n,
                    forall|t: int|
                        0 <= t < n ==> #[trigger] full@[t] == (full0[t] || refs@.subrange(
                            0,
                            j as int,
                        ).contains((t as usize, true))),
                    forall|t: int|
                        0 <= t < n ==> #[trigger] part@[t] == (part0[t] || refs@.subrange(
                            0,
                            j as int,
                        ).contains((t as usize, false))),
                decreases refs.len() - j,
            {
                let ghost fbefore = full@;
                let ghost pbefore = part@;
                let (t0, flag) = refs[j];
                if t0 < n {
                    if flag {
                        full.set(t0, true);
                    } else {
                        part.set(t0, true);
                    }
                }
                proof {
                    let a = refs@.subrange(0, j as int);
                    let b = refs@.subrange(0, j + 1);
                    assert(b =~= a.push(refs@[j as int]));
                    assert forall|t: int| 0 <= t < n implies #[trigger] full@[t] == (full0[t]
                        || b.contains((t as usize, true))) by {
                        assert(fbefore[t] == (full0[t] || a.contains((t as usize, true))));
                        lemma_push_contains(a, refs@[j as int], (t as usize, true));
                    }
                    assert forall|t: int| 0 <= t < n implies #[trigger] part@[t] == (part0[t]
                        || b.contains((t as usize, false))) by {
                        assert(pbefore[t] == (part0[t] || a.contains((t as usize, false))));
                        lemma_push_contains(a, refs@[j as int], (t as usize, false));
                    }
                }
                j += 1;
            }
            assert(refs@.subrange(0, refs@.len() as int) =~= refs@);
        }
        assert forall|t: int| 0 <= t < n implies #[trigger] val@[t] == changes_value(
            tv,
            cv,
            ins,
            t as usize,
            (k + 1) as nat,
        ) by {
            assert(val0[t] == changes_value(tv, cv, ins, t as usize, k as nat));
        }
        assert forall|t: int| 0 <= t < n implies #[trigger] full@[t] == writes_ref(
            tv,
            cv,
            ins,
            t as usize,
            true,
            (k + 1) as nat,
        ) by {
            assert(full0[t] == writes_ref(tv, cv, ins, t as usize, true, k as nat));
        }
        assert forall|t: int| 0 <= t < n implies #[trigger] part@[t] == writes_ref(
            tv,
            cv,
            ins,
            t as usize,
            false,
            (k + 1) as nat,
        ) by {
            assert(part0[t] == writes_ref(tv, cv, ins, t as usize, false, k as nat));
        }
        k += 1;
    }
    let mut val_targets: Vec<usize> = Vec::new();
    let mut mut_targets: Vec<(usize, bool)> = Vec::new();
    let mut t: usize = 0;
    assert(val_targets@ =~= loop_val_targets(tv, cv, ins, 0));
    assert(mut_targets@ =~= loop_mut_targets(tv, cv, ins, 0));
    while t < n
        invariant
            t <= n,
            val_targets@ == loop_val_targets(tv, cv, ins, t as nat),
            mut_targets@ == loop_mut_targets(tv, cv, ins, t as nat),
        decreases n - t,
    {
        assert(val@[t as int] == changes_value(tv, cv, ins, t, cv.len()));
        assert(full@[t as int] == writes_ref(tv, cv, ins, t, true, cv.len()));
        assert(part@[t as int] == writes_ref(tv, cv, ins, t, false, cv.len()));
        if val[t] {
            val_targets.push(t);
        }
        if full[t] || part[t] {
            mut_targets.push((t, full[t]));
        }
        t += 1;
    }
    (val_targets, mut_targets)
}

/// The block where one of the first `i` loops leads back to its header
/// ends at the offset `k`.
pub open spec fn latch_end(blocks: Seq<Block>, loops: Seq<NaturalLoop>, k: int, i: nat) -> bool
    decreases i,
{
    i > 0 && (latch_end(blocks, loops, k, (i - 1) as nat) || (loops[i - 1].loop_latch
        < blocks.len() && (blocks[loops[i - 1].loop_latch as int].content matches BlockContent::Basic {
        lower,
        upper,
    } && upper == k)))
}

/// The offsets below `n` at which a block ends that leads back to the
/// header of one of the loops, in ascending order.
pub open spec fn loop_back_edges(blocks: Seq<Block>, loops: Seq<NaturalLoop>, n: nat) -> Seq<usize>
    decreases n,
{
    if n == 0 {
        Seq::empty()
    } else if latch_end(blocks, loops, n - 1, loops.len()) {
        loop_back_edges(blocks, loops, (n - 1) as nat).push((n - 1) as usize)
    } else {
        loop_back_edges(blocks, loops, (n - 1) as nat)
    }
}

/// The offsets of the last instructions of the blocks that lead back to
/// the header of the loops.
#[verifier::loop_isolation(false)]
pub fn collect_loop_back_edges(
    code_len: usize,
    cfg: &StacklessControlFlowGraph,
    sub_loops: &Vec<NaturalLoop>,
) -> (r: Vec<usize>)
    ensures
        r@ == loop_back_edges(cfg.blocks@, sub_loops@, code_len as nat),
{
    let ghost blocks = cfg.blocks@;
    let mut marked = falses(code_len);
    let mut i: usize = 0;
    while i < sub_loops.len()
        invariant
            i <= sub_loops.len(),
            marked@.len() == code_len,
            forall|k: int|
                0 <= k < code_len ==> #[trigger] marked@[k] == latch_end(blocks, sub_loops@, k, i as nat),
        decreases sub_loops.len() - i,
    {
        let ghost before = marked@;
        let b = sub_loops[i].loop_latch;
        if b < cfg.blocks.len() {
            match cfg.blocks[b].content {
                BlockContent::Basic { lower, upper } => {
                    if upper < code_len {
                        marked.set(upper, true);
                    }
                },
                BlockContent::Dummy => {},
            }
        }
        assert forall|k: int| 0 <= k < code_len implies #[trigger] marked@[k] == latch_end(
            blocks,
            sub_loops@,
            k,
            (i + 1) as nat,
        ) by {
            assert(before[k] == latch_end(blocks, sub_loops@, k, i as nat));
        }
        i += 1;
    }
    let mut out: Vec<usize> = Vec::new();
    let mut k: usize = 0;
    assert(out@ =~= loop_back_edges(blocks, sub_loops@, 0));
    while k < code_len
        invariant
            k <= code_len,
            out@ == loop_back_edges(blocks, sub_loops@, k as nat),
        decreases code_len - k,
    {
        if marked[k] {
            out.push(k);
        }
        k += 1;
    }
    out
}

/// The block `h` is a basic block whose first instruction is a label.
pub open spec fn starts_with_label(function: &FunctionInfo, blocks: Seq<Block>, h: usize) -> bool {
    &&& h < blocks.len()
    &&& blocks[h as int].content matches BlockContent::Basic { lower, upper }
    &&& lower < function.code@.len()
    &&& function.code@[lower as int]@ is Label
}

/// The assertions that hold on every entry of the loop with the header
/// `loop_header`: none, as compiled modules carry none. `None` where the
/// header does not start with a label.
pub fn collect_loop_invariants(
    cfg: &StacklessControlFlowGraph,
    function: &FunctionInfo,
    loop_header: BlockId,
) -> (r: Option<Vec<(usize, AttrId)>>)
    ensures
        r is Some <==> starts_with_label(function, cfg.blocks@, loop_header),
        r matches Some(v) ==> v@.len() == 0,
{
    if loop_header < cfg.blocks.len() {
        match cfg.blocks[loop_header].content {
            BlockContent::Basic { lower, upper } => {
                if lower < function.code.len() {
                    match &function.code[lower] {
                        Bytecode::Label(_, _) => Some(Vec::new()),
                        _ => None,
                    }
                } else {
                    None
                }
            },
            BlockContent::Dummy => None,
        }
    } else {
        None
    }
}

/// Those among the first `k` of `edges` that lead to `h`, in order.
pub open spec fn edges_to(edges: Seq<(usize, usize)>, h: usize, k: nat) -> Seq<(usize, usize)>
    decreases k,
{
    if k == 0 {
        Seq::empty()
    } else if edges[k - 1].1 == h {
        edges_to(edges, h, (k - 1) as nat).push(edges[k - 1])
    } else {
        edges_to(edges, h, (k - 1) as nat)
    }
}

/// The nodes below `n` that one of `edges` leads to, in ascending order.
pub open spec fn headers(edges: Seq<(usize, usize)>, n: nat) -> Seq<usize>
    decreases n,
{
    if n == 0 {
        Seq::empty()
    } else if edges_to(edges, (n - 1) as usize, edges.len()).len() > 0 {
        headers(edges, (n - 1) as nat).push((n - 1) as usize)
    } else {
        headers(edges, (n - 1) as nat)
    }
}

/// The graph of the blocks: for each block its successors.
pub open spec fn block_graph(blocks: Seq<Block>) -> Seq<Seq<usize>> {
    Seq::new(blocks.len(), |b: int| blocks[b].successors@)
}

/// `loops` are the natural loops of the back edges `edges`, in order.
pub open spec fn loops_of(loops: Seq<NaturalLoop>, out: Seq<Seq<usize>>, edges: Seq<(usize, usize)>) -> bool {
    &&& loops.len() == edges.len()
    &&& forall|i: int| 0 <= i < loops.len() ==> (#[trigger] loops[i]).is_loop_of(out, edges[i])
}

/// `fat` is the fat loop with the header `h` of a function whose graph
/// has the back edges `edges`.
pub open spec fn is_fat_loop(
    fat: FatLoop,
    function: &FunctionInfo,
    blocks: Seq<Block>,
    edges: Seq<(usize, usize)>,
    h: usize,
) -> bool {
    let types = types_view(function.local_types@);
    let code = code_view(function.code@);
    let inside = inside_of(blocks, fat.sub_loops@, code.len());
    &&& loops_of(fat.sub_loops@, block_graph(blocks), edges_to(edges, h, edges.len()))
    &&& fat.invariants@.len() == 0
    &&& fat.val_targets@ == loop_val_targets(types, code, inside, types.len())
    &&& fat.mut_targets@ == loop_mut_targets(types, code, inside, types.len())
    &&& fat.back_edges@ == loop_back_edges(blocks, fat.sub_loops@, code.len())
}

/// The loops of the function can be told: the graph of its blocks is
/// small enough for the search for cycles, which numbers nodes and edges
/// with 32 bits, it is reducible, and every loop header starts with a
/// label.
pub open spec fn loops_known(function: &FunctionInfo, cfg: &StacklessControlFlowGraph) -> bool {
    let out = block_graph(cfg.blocks@);
    let edges = back_edges(out, cfg.entry_block_id, out.len());
    &&& out.len() < u32::MAX
    &&& crate::move_ir::call_graph::total_edges(out) < u32::MAX
    &&& reducible(out, cfg.entry_block_id)
    &&& forall|i: int|
        0 <= i < headers(edges, out.len()).len() ==> starts_with_label(
            function,
            cfg.blocks@,
            #[trigger] headers(edges, out.len())[i],
        )
}

/// The bodies of the loops, in order.
pub open spec fn bodies(loops: Seq<NaturalLoop>) -> Seq<Seq<usize>> {
    Seq::new(loops.len(), |i: int| loops[i].loop_body@)
}

/// The bodies of the natural loops of the back edges `edges`, in order.
pub open spec fn bodies_of(out: Seq<Seq<usize>>, edges: Seq<(usize, usize)>) -> Seq<Seq<usize>> {
    Seq::new(
        edges.len(),
        |i: int|
            crate::utils::graph::members(
                out.len(),
                |x: int| crate::utils::graph::in_loop(out, edges[i].0, edges[i].1, x as usize),
            ),
    )
}

/// `ann` holds the fat loops of the function, by their headers in
/// ascending order.
pub open spec fn is_annotation(
    ann: LoopAnnotation,
    function: &FunctionInfo,
    blocks: Seq<Block>,
    edges: Seq<(usize, usize)>,
) -> bool {
    let hs = headers(edges, blocks.len());
    &&& ann.fat_loops@.len() == hs.len()
    &&& forall|i: int|
        0 <= i < hs.len() ==> (#[trigger] ann.fat_loops@[i]).0 == hs[i] && is_fat_loop(
            ann.fat_loops@[i].1,
            function,
            blocks,
            edges,
            hs[i],
        )
}

pub fn clone_loop(l: &NaturalLoop) -> (r: NaturalLoop)
    ensures
        r.loop_header == l.loop_header,
        r.loop_latch == l.loop_latch,
        r.loop_body@ == l.loop_body@,
{
    NaturalLoop {
        loop_header: l.loop_header,
        loop_latch: l.loop_latch,
        loop_body: l.loop_body.clone(),
    }
}

/// The loops among `loops` whose header is `h`, in order.
#[verifier::loop_isolation(false)]
fn loops_with_header(
    loops: &Vec<NaturalLoop>,
    h: usize,
    Ghost(out): Ghost<Seq<Seq<usize>>>,
    Ghost(edges): Ghost<Seq<(usize, usize)>>,
) -> (r: Vec<NaturalLoop>)
    requires
        loops_of(loops@, out, edges),
    ensures
        loops_of(r@, out, edges_to(edges, h, edges.len())),
{
    let mut sub: Vec<NaturalLoop> = Vec::new();
    let mut i: usize = 0;
    while i < loops.len()
        invariant
            i <= loops.len(),
            loops_of(sub@, out, edges_to(edges, h, i as nat)),
        decreases loops.len() - i,
    {
        let ghost before = sub@;
        assert(loops@[i as int].is_loop_of(out, edges[i as int]));
        if loops[i].loop_header == h {
            sub.push(clone_loop(&loops[i]));
            assert forall|x: int| 0 <= x < sub@.len() implies (#[trigger] sub@[x]).is_loop_of(
                out,
                edges_to(edges, h, (i + 1) as nat)[x],
            ) by {
                if x < before.len() {
                    assert(before[x].is_loop_of(out, edges_to(edges, h, i as nat)[x]));
                }
            }
        }
        i += 1;
    }
    sub
}

/// The natural loops of the function and its fat loops. `None` where the
/// function has no control-flow graph, where the graph is not reducible
/// or too large to tell, and where a loop header does not start with a
/// label.
#[verifier::loop_isolation(false)]
pub fn get_loops(function: &FunctionInfo) -> (r: Option<(Vec<NaturalLoop>, LoopAnnotation)>)
    ensures
        match function.cfg {
            None => r is None,
            Some(cfg) => {
                let out = block_graph(cfg.blocks@);
                let edges = back_edges(out, cfg.entry_block_id, out.len());
                &&& r is Some <==> loops_known(function, &cfg)
                &&& r matches Some(x) ==> loops_of(x.0@, out, edges) && is_annotation(
                    x.1,
                    function,
                    cfg.blocks@,
                    edges,
                )
            },
        },
{
    let cfg = match &function.cfg {
        Some(cfg) => cfg,
        None => {
            return None;
        },
    };
    let n = cfg.blocks.len();
    let ghost blocks = cfg.blocks@;
    let ghost out = block_graph(blocks);
    let mut successors: Vec<Vec<usize>> = Vec::new();
    let mut b: usize = 0;
    while b < n
        invariant
            b <= n,
            successors@.len() == b,
            forall|x: int| 0 <= x < b ==> (#[trigger] successors@[x])@ == blocks[x].successors@,
        decreases n - b,
    {
        successors.push(cfg.blocks[b].successors.clone());
        b += 1;
    }
    let graph = FlowGraph { entry: cfg.entry_block_id, successors };
    assert(graph@ =~= out);
    let natural_loops = match graph.compute_reducible() {
        Some(loops) => loops,
        None => {
            return None;
        },
    };
    let ghost edges = back_edges(out, cfg.entry_block_id, out.len());
    let ghost hs = headers(edges, n as nat);
    let mut fat_loops: Vec<(BlockId, FatLoop)> = Vec::new();
    let mut h: usize = 0;
    assert(fat_loops@.len() == headers(edges, 0).len());
    while h < n
        invariant
            h <= n,
            fat_loops@.len() == headers(edges, h as nat).len(),
            forall|i: int|
                0 <= i < fat_loops@.len() ==> (#[trigger] fat_loops@[i]).0 == headers(
                    edges,
                    h as nat,
                )[i] && is_fat_loop(fat_loops@[i].1, function, blocks, edges, fat_loops@[i].0),
            forall|i: int|
                0 <= i < headers(edges, h as nat).len() ==> starts_with_label(
                    function,
                    blocks,
                    #[trigger] headers(edges, h as nat)[i],
                ),
        decreases n - h,
    {
        let sub_loops = loops_with_header(&natural_loops, h, Ghost(out), Ghost(edges));
        let ghost before = fat_loops@;
        let ghost hs0 = headers(edges, h as nat);
        if sub_loops.len() > 0 {
            let invariants = match collect_loop_invariants(cfg, function, h) {
                Some(v) => v,
                None => {
                    proof {
                        lemma_headers_prefix(edges, (h + 1) as nat, n as nat);
                        assert(headers(edges, (h + 1) as nat)[hs0.len() as int] == h);
                        assert(headers(edges, n as nat)[hs0.len() as int] == h);
                    }
                    return None;
                },
            };
            let (val_targets, mut_targets) = collect_loop_targets(cfg, function, &sub_loops);
            let back = collect_loop_back_edges(function.code.len(), cfg, &sub_loops);
            fat_loops.push(
                (h, FatLoop { invariants, val_targets, mut_targets, back_edges: back, sub_loops }),
            );
            assert forall|i: int| 0 <= i < fat_loops@.len() implies (#[trigger] fat_loops@[i]).0
                == headers(edges, (h + 1) as nat)[i] && is_fat_loop(
                fat_loops@[i].1,
                function,
                blocks,
                edges,
                fat_loops@[i].0,
            ) by {
                if i < before.len() {
                    assert(before[i].0 == hs0[i]);
                }
            }
            assert forall|i: int| 0 <= i < headers(edges, (h + 1) as nat).len() implies starts_with_label(
                function,
                blocks,
                #[trigger] headers(edges, (h + 1) as nat)[i],
            ) by {
                if i < hs0.len() {
                    assert(starts_with_label(function, blocks, hs0[i]));
                }
            }
        }
        h += 1;
    }
    Some((natural_loops, LoopAnnotation { fat_loops }))
}

/// The headers below `n` are the first of the headers below any larger
/// number.
pub proof fn lemma_headers_prefix(edges: Seq<(usize, usize)>, n: nat, m: nat)
    requires
        n <= m,
    ensures
        headers(edges, n).len() <= headers(edges, m).len(),
        forall|i: int| 0 <= i < headers(edges, n).len() ==> headers(edges, n)[i] == headers(edges, m)[i],
    decreases m,
{
    if n < m {
        lemma_headers_prefix(edges, n, (m - 1) as nat);
    }
}

} // verus!
