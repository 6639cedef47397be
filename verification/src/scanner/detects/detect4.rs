use vstd::prelude::*;
use crate::move_ir::bytecode::{
    code_view, AssignKind, Bytecode, BytecodeV, Operation, OperationV,
};
use crate::move_ir::control_flow_graph::{Block, BlockContent, StacklessControlFlowGraph};
use crate::move_ir::data_dependency::{copied_locals, lookup, DataDepent, NodeV};
use crate::move_ir::fatloop::{block_graph, bodies, bodies_of, edges_to, get_loops, headers, is_fat_loop, is_mut_temp, loops_known};
use crate::utils::graph::{back_edges, NaturalLoop};
use crate::move_ir::generate_bytecode::{FunctionInfo, StacklessBytecodeGenerator};
use crate::move_ir::types::{types_view, Type, TypeV};
use crate::move_ir::utils::get_function_name;

verus! {

/// The temp that the instruction borrows or copies a mutable reference
/// from, the temp that receives it, and whether it is a borrow of a
/// field: a copy or a store of a temp that holds a mutable reference, or
/// a borrow of a local, a global or a field.
pub open spec fn borrowed(bc: BytecodeV, types: Seq<TypeV>) -> Option<(usize, usize, bool)> {
    match bc {
        BytecodeV::Assign(_, dst, src, kind) => if kind != AssignKind::Move && is_mut_temp(
            types,
            src,
        ) {
            Some((src, dst, false))
        } else {
            None
        },
        BytecodeV::Call(_, dsts, op, srcs, _) => if srcs.len() >= 1 && dsts.len() >= 1 {
            match op {
                OperationV::BorrowLoc => Some((srcs[0], dsts[0], false)),
                OperationV::BorrowGlobal(_, _, _) => Some((srcs[0], dsts[0], false)),
                OperationV::BorrowField(_, _, _, _) => Some((srcs[0], dsts[0], true)),
                _ => None,
            }
        } else {
            None
        },
        _ => None,
    }
}

/// No instruction from offset `i` up to, but without, offset `upper`
/// changes the temp `condition`: none assigns to it, none hands it to a
/// function, and none changes a temp that borrows from it behind the
/// borrow.
pub open spec fn unchanged_from(
    types: Seq<TypeV>,
    code: Seq<BytecodeV>,
    upper: nat,
    condition: usize,
    i: nat,
) -> bool
    decreases upper - i,
{
    if i >= upper || i >= code.len() {
        true
    } else {
        let rest = unchanged_from(types, code, upper, condition, i + 1);
        match code[i as int] {
            BytecodeV::Assign(_, dst, src, _) => if dst == condition {
                false
            } else if src == condition {
                match borrowed(code[i as int], types) {
                    Some((_, d, _)) => unchanged_from(types, code, upper, d, i + 1) && rest,
                    None => rest,
                }
            } else {
                rest
            },
            BytecodeV::Call(_, _, op, srcs, _) => {
                let through = match borrowed(code[i as int], types) {
                    Some((s, d, _)) => s != condition || unchanged_from(types, code, upper, d, i + 1),
                    None => true,
                };
                through && !(op is Function && srcs.contains(condition)) && rest
            },
            _ => rest,
        }
    }
}

/// No instruction of the block, from `offset` places behind its first up
/// to, but without, its last, changes the temp `condition`.
pub open spec fn unchanged_in(
    types: Seq<TypeV>,
    code: Seq<BytecodeV>,
    content: BlockContent,
    condition: usize,
    offset: nat,
) -> bool {
    match content {
        BlockContent::Basic { lower, upper } => unchanged_from(
            types,
            code,
            upper as nat,
            condition,
            (lower + offset) as nat,
        ),
        BlockContent::Dummy => true,
    }
}

pub fn borrow_reference(instr: &Bytecode, local_types: &Vec<Type>) -> (r: Option<(usize, usize, bool)>)
    ensures
        r == borrowed(instr@, types_view(local_types@)),
{
    match instr {
        Bytecode::Assign(_, dst, src, kind) => {
            let moved = match kind {
                AssignKind::Move => true,
                _ => false,
            };
            if !moved && *src < local_types.len() && local_types[*src].is_mutable_reference() {
                Some((*src, *dst, false))
            } else {
                None
            }
        },
        Bytecode::Call(_, dsts, oper, srcs, _) => {
            if srcs.len() >= 1 && dsts.len() >= 1 {
                match oper {
                    Operation::BorrowLoc => Some((srcs[0], dsts[0], false)),
                    Operation::BorrowGlobal(_, _, _) => Some((srcs[0], dsts[0], false)),
                    Operation::BorrowField(_, _, _, _) => Some((srcs[0], dsts[0], true)),
                    _ => None,
                }
            } else {
                None
            }
        },
        _ => None,
    }
}

fn holds(srcs: &Vec<usize>, x: usize) -> (r: bool)
    ensures
        r == srcs@.contains(x),
{
    let mut i: usize = 0;
    while i < srcs.len()
        invariant
            i <= srcs.len(),
            forall|j: int| 0 <= j < i ==> srcs@[j] != x,
        decreases srcs.len() - i,
    {
        if srcs[i] == x {
            return true;
        }
        i += 1;
    }
    false
}

fn unchanged_from_exec(function: &FunctionInfo, upper: usize, condition: usize, i: usize) -> (r: bool)
    ensures
        r == unchanged_from(
            types_view(function.local_types@),
            code_view(function.code@),
            upper as nat,
            condition,
            i as nat,
        ),
    decreases upper - i,
{
    if i >= upper || i >= function.code.len() {
        return true;
    }
    let instr = &function.code[i];
    assert(code_view(function.code@)[i as int] == instr@);
    let rest = unchanged_from_exec(function, upper, condition, i + 1);
    match instr {
        Bytecode::Assign(_, dst, src, _) => {
            if *dst == condition {
                false
            } else if *src == condition {
                match borrow_reference(instr, &function.local_types) {
                    Some((_, d, _)) => unchanged_from_exec(function, upper, d, i + 1) && rest,
                    None => rest,
                }
            } else {
                rest
            }
        },
        Bytecode::Call(_, _, oper, srcs, _) => {
            let through = match borrow_reference(instr, &function.local_types) {
                Some((s, d, _)) => s != condition || unchanged_from_exec(function, upper, d, i + 1),
                None => true,
            };
            let handed = match oper {
                Operation::Function(_, _, _) => holds(srcs, condition),
                _ => false,
            };
            through && !handed && rest
        },
        _ => rest,
    }
}

/// Whether the block leaves the temp `condition` as it is: whether no
/// instruction of the block, from `offset` places behind its first up to,
/// but without, its last, changes the temp.
pub fn changed_loop_condition(
    function: &FunctionInfo,
    content: &BlockContent,
    condition: usize,
    offset: usize,
) -> (r: bool)
    ensures
        r == unchanged_in(
            types_view(function.local_types@),
            code_view(function.code@),
            *content,
            condition,
            offset as nat,
        ),
{
    match content {
        BlockContent::Basic { lower, upper } => {
            if offset > usize::MAX - *lower {
                true
            } else {
                unchanged_from_exec(function, *upper, condition, *lower + offset)
            }
        },
        BlockContent::Dummy => true,
    }
}

/// One of the first `i` of `bodies` holds the block `b`.
pub open spec fn in_union(bodies: Seq<Seq<usize>>, b: usize, i: nat) -> bool
    decreases i,
{
    i > 0 && (in_union(bodies, b, (i - 1) as nat) || bodies[i - 1].contains(b))
}

/// One of the first `j` successors of the block `b` lies in none of
/// `bodies`.
pub open spec fn leaves(blocks: Seq<Block>, bodies: Seq<Seq<usize>>, b: usize, j: nat) -> bool
    decreases j,
{
    j > 0 && (leaves(blocks, bodies, b, (j - 1) as nat) || !in_union(
        bodies,
        blocks[b as int].successors@[j - 1],
        bodies.len(),
    ))
}

/// The block `b` may leave the loops: one of its successors lies in none
/// of `bodies`.
pub open spec fn exits(blocks: Seq<Block>, bodies: Seq<Seq<usize>>, b: usize) -> bool {
    b < blocks.len() && leaves(blocks, bodies, b, blocks[b as int].successors@.len())
}

/// The locals behind the condition on which the block `b` may leave the
/// loops: where the block ends in a branch on a temp with a dependency
/// tree, the locals that the tree reaches by a borrow or by a copy.
pub open spec fn branch_conditions(
    code: Seq<BytecodeV>,
    table: Seq<Option<NodeV>>,
    blocks: Seq<Block>,
    bodies: Seq<Seq<usize>>,
    b: usize,
) -> Seq<usize> {
    if exits(blocks, bodies, b) {
        match blocks[b as int].content {
            BlockContent::Basic { lower, upper } => if upper < code.len() {
                match code[upper as int] {
                    BytecodeV::Branch(_, _, _, src) => match lookup(table, src) {
                        Some(node) => copied_locals(node),
                        None => Seq::empty(),
                    },
                    _ => Seq::empty(),
                }
            } else {
                Seq::empty()
            },
            BlockContent::Dummy => Seq::empty(),
        }
    } else {
        Seq::empty()
    }
}

/// The conditions of the first `j` blocks of `body`.
pub open spec fn body_conditions(
    code: Seq<BytecodeV>,
    table: Seq<Option<NodeV>>,
    blocks: Seq<Block>,
    bodies: Seq<Seq<usize>>,
    body: Seq<usize>,
    j: nat,
) -> Seq<usize>
    decreases j,
{
    if j == 0 {
        Seq::empty()
    } else {
        body_conditions(code, table, blocks, bodies, body, (j - 1) as nat) + branch_conditions(
            code,
            table,
            blocks,
            bodies,
            body[j - 1],
        )
    }
}

/// The conditions of the first `i` of `bodies`.
pub open spec fn conditions(
    code: Seq<BytecodeV>,
    table: Seq<Option<NodeV>>,
    blocks: Seq<Block>,
    bodies: Seq<Seq<usize>>,
    i: nat,
) -> Seq<usize>
    decreases i,
{
    if i == 0 {
        Seq::empty()
    } else {
        conditions(code, table, blocks, bodies, (i - 1) as nat) + body_conditions(
            code,
            table,
            blocks,
            bodies,
            bodies[i - 1],
            bodies[i - 1].len(),
        )
    }
}

/// The block leaves each of the first `k` of `conds` as it is.
pub open spec fn conds_unchanged(
    types: Seq<TypeV>,
    code: Seq<BytecodeV>,
    content: BlockContent,
    conds: Seq<usize>,
    k: nat,
) -> bool
    decreases k,
{
    k == 0 || (conds_unchanged(types, code, content, conds, (k - 1) as nat) && unchanged_in(
        types,
        code,
        content,
        conds[k - 1],
        0,
    ))
}

/// Each of the first `j` blocks of `body` leaves every one of `conds` as
/// it is.
pub open spec fn body_unchanged(
    types: Seq<TypeV>,
    code: Seq<BytecodeV>,
    blocks: Seq<Block>,
    body: Seq<usize>,
    conds: Seq<usize>,
    j: nat,
) -> bool
    decreases j,
{
    j == 0 || (body_unchanged(types, code, blocks, body, conds, (j - 1) as nat) && (body[j - 1]
        < blocks.len() ==> conds_unchanged(
        types,
        code,
        blocks[body[j - 1] as int].content,
        conds,
        conds.len(),
    )))
}

/// Every block of the first `i` of `bodies` leaves every one of `conds`
/// as it is.
pub open spec fn bodies_unchanged(
    types: Seq<TypeV>,
    code: Seq<BytecodeV>,
    blocks: Seq<Block>,
    bodies: Seq<Seq<usize>>,
    conds: Seq<usize>,
    i: nat,
) -> bool
    decreases i,
{
    i == 0 || (bodies_unchanged(types, code, blocks, bodies, conds, (i - 1) as nat)
        && body_unchanged(types, code, blocks, bodies[i - 1], conds, bodies[i - 1].len()))
}

/// No block of the loops with the bodies `bodies` changes a local behind
/// a condition on which the loops may be left.
pub open spec fn never_changes(
    types: Seq<TypeV>,
    code: Seq<BytecodeV>,
    table: Seq<Option<NodeV>>,
    blocks: Seq<Block>,
    bodies: Seq<Seq<usize>>,
) -> bool {
    bodies_unchanged(
        types,
        code,
        blocks,
        bodies,
        conditions(code, table, blocks, bodies, bodies.len()),
        bodies.len(),
    )
}

#[verifier::loop_isolation(false)]
fn in_union_exec(sub_loops: &Vec<NaturalLoop>, b: usize) -> (r: bool)
    ensures
        r == in_union(bodies(sub_loops@), b, sub_loops@.len()),
{
    let ghost bs = bodies(sub_loops@);
    let mut i: usize = 0;
    while i < sub_loops.len()
        invariant
            i <= sub_loops.len(),
            !in_union(bs, b, i as nat),
        decreases sub_loops.len() - i,
    {
        assert(bs[i as int] == sub_loops@[i as int].loop_body@);
        if holds(&sub_loops[i].loop_body, b) {
            proof {
                lemma_in_union_more(bs, b, (i + 1) as nat, bs.len());
            }
            return true;
        }
        i += 1;
    }
    false
}

proof fn lemma_in_union_more(bodies: Seq<Seq<usize>>, b: usize, i: nat, n: nat)
    requires
        i <= n,
        in_union(bodies, b, i),
    ensures
        in_union(bodies, b, n),
    decreases n,
{
    if i < n {
        lemma_in_union_more(bodies, b, i, (n - 1) as nat);
    }
}

proof fn lemma_leaves_more(blocks: Seq<Block>, bodies: Seq<Seq<usize>>, b: usize, j: nat, n: nat)
    requires
        j <= n,
        leaves(blocks, bodies, b, j),
    ensures
        leaves(blocks, bodies, b, n),
    decreases n,
{
    if j < n {
        lemma_leaves_more(blocks, bodies, b, j, (n - 1) as nat);
    }
}

#[verifier::loop_isolation(false)]
fn exits_exec(cfg: &StacklessControlFlowGraph, sub_loops: &Vec<NaturalLoop>, b: usize) -> (r: bool)
    ensures
        r == exits(cfg.blocks@, bodies(sub_loops@), b),
{
    if b >= cfg.blocks.len() {
        return false;
    }
    let ghost bs = bodies(sub_loops@);
    let children = &cfg.blocks[b].successors;
    let mut j: usize = 0;
    while j < children.len()
        invariant
            j <= children.len(),
            !leaves(cfg.blocks@, bs, b, j as nat),
        decreases children.len() - j,
    {
        if !in_union_exec(sub_loops, children[j]) {
            proof {
                lemma_leaves_more(cfg.blocks@, bs, b, (j + 1) as nat, children@.len());
            }
            return true;
        }
        j += 1;
    }
    false
}

/// Adds to `conds` the conditions of the loops with the bodies of
/// `sub_loops`.
#[verifier::loop_isolation(false)]
fn collect_conditions(
    function: &FunctionInfo,
    dd: &DataDepent,
    cfg: &StacklessControlFlowGraph,
    sub_loops: &Vec<NaturalLoop>,
) -> (conds: Vec<usize>)
    ensures
        conds@ == conditions(
            code_view(function.code@),
            dd@,
            cfg.blocks@,
            bodies(sub_loops@),
            sub_loops@.len(),
        ),
{
    broadcast use crate::move_ir::data_dependency::lemma_node_view;

    let ghost cv = code_view(function.code@);
    let ghost bs = bodies(sub_loops@);
    let ghost blocks = cfg.blocks@;
    let mut conds: Vec<usize> = Vec::new();
    let mut i: usize = 0;
    assert(conds@ =~= conditions(cv, dd@, blocks, bs, 0));
    while i < sub_loops.len()
        invariant
            i <= sub_loops.len(),
            conds@ == conditions(cv, dd@, blocks, bs, i as nat),
        decreases sub_loops.len() - i,
    {
        let body = &sub_loops[i].loop_body;
        assert(bs[i as int] == body@);
        let ghost base = conds@;
        let mut j: usize = 0;
        assert(conds@ =~= base + body_conditions(cv, dd@, blocks, bs, body@, 0));
        while j < body.len()
            invariant
                j <= body.len(),
                conds@ == base + body_conditions(cv, dd@, blocks, bs, body@, j as nat),
            decreases body.len() - j,
        {
            let b = body[j];
            let ghost before = conds@;
            if exits_exec(cfg, sub_loops, b) {
                match cfg.blocks[b].content {
                    BlockContent::Basic { lower, upper } => {
                        if upper < function.code.len() {
                            assert(cv[upper as int] == function.code@[upper as int]@);
                            match &function.code[upper] {
                                Bytecode::Branch(_, _, _, src) => {
                                    if *src < dd.data.len() {
                                        match &dd.data[*src] {
                                            Some(node) => {
                                                node.loop_condition_from_copy(&mut conds);
                                            },
                                            None => {},
                                        }
                                    }
                                },
                                _ => {},
                            }
                        }
                    },
                    BlockContent::Dummy => {},
                }
            }
            assert(conds@ =~= base + body_conditions(cv, dd@, blocks, bs, body@, (j + 1) as nat)) by {
                let add = branch_conditions(cv, dd@, blocks, bs, b);
                assert(conds@ =~= before + add);
            }
            j += 1;
        }
        assert(conds@ =~= conditions(cv, dd@, blocks, bs, (i + 1) as nat));
        i += 1;
    }
    conds
}

#[verifier::loop_isolation(false)]
fn bodies_unchanged_exec(
    function: &FunctionInfo,
    cfg: &StacklessControlFlowGraph,
    sub_loops: &Vec<NaturalLoop>,
    conds: &Vec<usize>,
) -> (r: bool)
    ensures
        r == bodies_unchanged(
            types_view(function.local_types@),
            code_view(function.code@),
            cfg.blocks@,
            bodies(sub_loops@),
            conds@,
            sub_loops@.len(),
        ),
{
    let ghost tv = types_view(function.local_types@);
    let ghost cv = code_view(function.code@);
    let ghost bs = bodies(sub_loops@);
    let ghost blocks = cfg.blocks@;
    let mut flag = true;
    let mut i: usize = 0;
    while i < sub_loops.len()
        invariant
            i <= sub_loops.len(),
            flag == bodies_unchanged(tv, cv, blocks, bs, conds@, i as nat),
        decreases sub_loops.len() - i,
    {
        let body = &sub_loops[i].loop_body;
        assert(bs[i as int] == body@);
        let mut ok = true;
        let mut j: usize = 0;
        while j < body.len()
            invariant
                j <= body.len(),
                ok == body_unchanged(tv, cv, blocks, body@, conds@, j as nat),
            decreases body.len() - j,
        {
            let b = body[j];
            if b < cfg.blocks.len() {
                let content = &cfg.blocks[b].content;
                let mut all = true;
                let mut k: usize = 0;
                while k < conds.len()
                    invariant
                        k <= conds.len(),
                        all == conds_unchanged(tv, cv, *content, conds@, k as nat),
                    decreases conds.len() - k,
                {
                    let same = changed_loop_condition(function, content, conds[k], 0);
                    all = all && same;
                    k += 1;
                }
                ok = ok && all;
            }
            j += 1;
        }
        flag = flag && ok;
        i += 1;
    }
    flag
}

/// Whether no block of the loops `sub_loops` changes a local behind a
/// condition on which the loops may be left.
pub fn never_changes_exec(
    function: &FunctionInfo,
    dd: &DataDepent,
    cfg: &StacklessControlFlowGraph,
    sub_loops: &Vec<NaturalLoop>,
) -> (r: bool)
    ensures
        r == never_changes(
            types_view(function.local_types@),
            code_view(function.code@),
            dd@,
            cfg.blocks@,
            bodies(sub_loops@),
        ),
{
    let conds = collect_conditions(function, dd, cfg, sub_loops);
    assert(bodies(sub_loops@).len() == sub_loops@.len());
    bodies_unchanged_exec(function, cfg, sub_loops, &conds)
}

/// None of the first `k` fat loops of the function changes a local behind
/// a condition on which it may be left.
pub open spec fn all_never_change(
    function: &FunctionInfo,
    table: Seq<Option<NodeV>>,
    blocks: Seq<Block>,
    edges: Seq<(usize, usize)>,
    k: nat,
) -> bool
    decreases k,
{
    k == 0 || (all_never_change(function, table, blocks, edges, (k - 1) as nat) && never_changes(
        types_view(function.local_types@),
        code_view(function.code@),
        table,
        blocks,
        bodies_of(
            block_graph(blocks),
            edges_to(edges, headers(edges, blocks.len())[k - 1], edges.len()),
        ),
    ))
}

/// The function has a loop, and no block of any of its loops changes a
/// local behind a condition on which the loop may be left. A function
/// whose loops cannot be told counts as having none.
pub open spec fn loops_forever(function: &FunctionInfo, table: Seq<Option<NodeV>>) -> bool {
    &&& function.cfg matches Some(cfg)
    &&& loops_known(function, &cfg)
    &&& {
        let out = block_graph(cfg.blocks@);
        let edges = back_edges(out, cfg.entry_block_id, out.len());
        let hs = headers(edges, out.len());
        hs.len() > 0 && all_never_change(function, table, cfg.blocks@, edges, hs.len())
    }
}

/// The finding of the detector of infinite loops for the function at
/// place `idx`: its name, where it has a loop and none of its loops
/// changes a local behind a condition on which it may be left.
#[verifier::loop_isolation(false)]
pub fn detect_infinite_loop(stbgr: &StacklessBytecodeGenerator, idx: usize) -> (r: Option<String>)
    requires
        stbgr.wf(),
        idx < stbgr.module.function_defs@.len(),
        idx < stbgr.functions@.len(),
        idx < stbgr.data_dependency@.len(),
    ensures
        r is Some <==> loops_forever(
            &stbgr.functions@[idx as int],
            stbgr.data_dependency@[idx as int]@,
        ),
        r matches Some(s) ==> s@ == stbgr.spec_function_name(idx as int),
{
    let function = &stbgr.functions[idx];
    let dd = &stbgr.data_dependency[idx];
    let (_natural_loops, fat_loops) = match get_loops(function) {
        Some(x) => x,
        None => {
            return None;
        },
    };
    let cfg = match &function.cfg {
        Some(cfg) => cfg,
        None => {
            return None;
        },
    };
    let ghost blocks = cfg.blocks@;
    let ghost out = block_graph(blocks);
    let ghost edges = back_edges(out, cfg.entry_block_id, out.len());
    let ghost hs = headers(edges, out.len());
    let mut ret_flag = fat_loops.fat_loops.len() > 0;
    let mut i: usize = 0;
    while i < fat_loops.fat_loops.len()
        invariant
            i <= fat_loops.fat_loops.len(),
            ret_flag == (hs.len() > 0 && all_never_change(function, dd@, blocks, edges, i as nat)),
        decreases fat_loops.fat_loops.len() - i,
    {
        let fat = &fat_loops.fat_loops[i].1;
        proof {
            let h = hs[i as int];
            let es = edges_to(edges, h, edges.len());
            assert(fat_loops.fat_loops@[i as int].0 == h);
            assert(is_fat_loop(*fat, function, blocks, edges, h));
            assert(bodies(fat.sub_loops@) =~= bodies_of(out, es)) by {
                assert forall|x: int| 0 <= x < fat.sub_loops@.len() implies bodies(fat.sub_loops@)[x]
                    == bodies_of(out, es)[x] by {
                    assert(fat.sub_loops@[x].is_loop_of(out, es[x]));
                }
            }
        }
        let same = never_changes_exec(function, dd, cfg, &fat.sub_loops);
        ret_flag = ret_flag && same;
        i += 1;
    }
    if ret_flag {
        Some(get_function_name(idx, stbgr))
    } else {
        None
    }
}

/// The instruction names the temp `c`: it writes it, reads it, or takes
/// it as an operand.
pub open spec fn names(bc: BytecodeV, c: usize) -> bool {
    match bc {
        BytecodeV::Assign(_, dst, src, _) => dst == c || src == c,
        BytecodeV::Call(_, _, _, srcs, _) => srcs.contains(c),
        _ => false,
    }
}

/// A temp that no instruction from offset `i` up to, but without, offset
/// `upper` names is not changed by them.
pub proof fn lemma_unnamed_is_unchanged(
    types: Seq<TypeV>,
    code: Seq<BytecodeV>,
    upper: nat,
    c: usize,
    i: nat,
)
    requires
        forall|k: int| i <= k < upper && k < code.len() ==> !names(#[trigger] code[k], c),
    ensures
        unchanged_from(types, code, upper, c, i),
    decreases upper - i,
{
    if i < upper && i < code.len() {
        lemma_unnamed_is_unchanged(types, code, upper, c, i + 1);
        assert(!names(code[i as int], c));
        match code[i as int] {
            BytecodeV::Call(_, dsts, op, srcs, _) => {
                if srcs.len() >= 1 && srcs[0] == c {
                    assert(srcs.contains(c));
                }
            },
            _ => {},
        }
    }
}

/// A temp that an instruction between offset `i` and offset `upper`
/// assigns to is changed there.
pub proof fn lemma_assigned_is_changed(
    types: Seq<TypeV>,
    code: Seq<BytecodeV>,
    upper: nat,
    c: usize,
    i: nat,
    at: nat,
)
    requires
        i <= at < upper,
        at < code.len(),
        code[at as int] matches BytecodeV::Assign(_, dst, _, _) && dst == c,
    ensures
        !unchanged_from(types, code, upper, c, i),
    decreases at - i,
{
    if i < at {
        lemma_assigned_is_changed(types, code, upper, c, i + 1, at);
    }
}

/// Where one of the conditions is changed in a block, the conditions are
/// not all unchanged in it.
proof fn lemma_conds_changed(
    types: Seq<TypeV>,
    code: Seq<BytecodeV>,
    content: BlockContent,
    conds: Seq<usize>,
    z: int,
    k: nat,
)
    requires
        0 <= z < k <= conds.len(),
        !unchanged_in(types, code, content, conds[z], 0),
    ensures
        !conds_unchanged(types, code, content, conds, k),
    decreases k,
{
    if z < k - 1 {
        lemma_conds_changed(types, code, content, conds, z, (k - 1) as nat);
    }
}

proof fn lemma_body_changed(
    types: Seq<TypeV>,
    code: Seq<BytecodeV>,
    blocks: Seq<Block>,
    body: Seq<usize>,
    conds: Seq<usize>,
    y: int,
    j: nat,
)
    requires
        0 <= y < j <= body.len(),
        body[y] < blocks.len(),
        !conds_unchanged(types, code, blocks[body[y] as int].content, conds, conds.len()),
    ensures
        !body_unchanged(types, code, blocks, body, conds, j),
    decreases j,
{
    if y < j - 1 {
        lemma_body_changed(types, code, blocks, body, conds, y, (j - 1) as nat);
    }
}

proof fn lemma_bodies_changed(
    types: Seq<TypeV>,
    code: Seq<BytecodeV>,
    blocks: Seq<Block>,
    bodies: Seq<Seq<usize>>,
    conds: Seq<usize>,
    x: int,
    i: nat,
)
    requires
        0 <= x < i <= bodies.len(),
        !body_unchanged(types, code, blocks, bodies[x], conds, bodies[x].len()),
    ensures
        !bodies_unchanged(types, code, blocks, bodies, conds, i),
    decreases i,
{
    if x < i - 1 {
        lemma_bodies_changed(types, code, blocks, bodies, conds, x, (i - 1) as nat);
    }
}

proof fn lemma_some_changes(
    function: &FunctionInfo,
    table: Seq<Option<NodeV>>,
    blocks: Seq<Block>,
    edges: Seq<(usize, usize)>,
    h: int,
    k: nat,
)
    requires
        0 <= h < k,
        !never_changes(
            types_view(function.local_types@),
            code_view(function.code@),
            table,
            blocks,
            bodies_of(block_graph(blocks), edges_to(edges, headers(edges, blocks.len())[h], edges.len())),
        ),
    ensures
        !all_never_change(function, table, blocks, edges, k),
    decreases k,
{
    if h < k - 1 {
        lemma_some_changes(function, table, blocks, edges, h, (k - 1) as nat);
    }
}

/// A function is not reported where a block of one of its loops assigns,
/// before its last instruction, to a local that a condition of that loop
/// is traced to: `h` is the place of the loop's header, `x` that of one
/// of its bodies, `y` that of a block in the body, `z` that of the
/// condition, and `at` the offset of the assignment.
pub proof fn lemma_changed_condition_not_reported(
    function: &FunctionInfo,
    table: Seq<Option<NodeV>>,
    h: int,
    x: int,
    y: int,
    z: int,
    at: nat,
)
    requires
        function.cfg is Some,
        ({
            let cfg = function.cfg->0;
            let types = types_view(function.local_types@);
            let code = code_view(function.code@);
            let out = block_graph(cfg.blocks@);
            let edges = back_edges(out, cfg.entry_block_id, out.len());
            let hs = headers(edges, out.len());
            let bs = bodies_of(out, edges_to(edges, hs[h], edges.len()));
            let conds = conditions(code, table, cfg.blocks@, bs, bs.len());
            &&& 0 <= h < hs.len()
            &&& 0 <= x < bs.len()
            &&& 0 <= y < bs[x].len()
            &&& bs[x][y] < cfg.blocks@.len()
            &&& 0 <= z < conds.len()
            &&& cfg.blocks@[bs[x][y] as int].content matches BlockContent::Basic { lower, upper }
            &&& lower <= at < upper
            &&& at < code.len()
            &&& code[at as int] matches BytecodeV::Assign(_, dst, _, _)
            &&& code[at as int]->Assign_1 == conds[z]
        }),
    ensures
        !loops_forever(function, table),
{
    let cfg = function.cfg->0;
    let types = types_view(function.local_types@);
    let code = code_view(function.code@);
    let out = block_graph(cfg.blocks@);
    let edges = back_edges(out, cfg.entry_block_id, out.len());
    let hs = headers(edges, out.len());
    let bs = bodies_of(out, edges_to(edges, hs[h], edges.len()));
    let conds = conditions(code, table, cfg.blocks@, bs, bs.len());
    let content = cfg.blocks@[bs[x][y] as int].content;
    lemma_assigned_is_changed(types, code, content->upper as nat, conds[z], content->lower as nat, at);
    lemma_conds_changed(types, code, content, conds, z, conds.len());
    lemma_body_changed(types, code, cfg.blocks@, bs[x], conds, y, bs[x].len());
    lemma_bodies_changed(types, code, cfg.blocks@, bs, conds, x, bs.len());
    assert(out.len() == cfg.blocks@.len());
    lemma_some_changes(function, table, cfg.blocks@, edges, h, hs.len());
}

/// The detector of loops that cannot end.
pub struct Detector4<'a> {
    pub packages: &'a crate::move_ir::packages::Packages<'a>,
    pub content: crate::scanner::result::DetectContent,
}

impl<'a> crate::scanner::detectors::AbstractDetector<'a> for Detector4<'a> {
    open spec fn package(&self) -> &'a crate::move_ir::packages::Packages<'a> {
        self.packages
    }

    open spec fn found(&self) -> &crate::scanner::result::DetectContent {
        &self.content
    }

    open spec fn class() -> crate::scanner::result::DetectKind {
        crate::scanner::result::DetectKind::InfiniteLoop
    }

    fn new(packages: &'a crate::move_ir::packages::Packages<'a>) -> (r: Self) {
        Self {
            packages,
            content: crate::scanner::result::DetectContent::new(
                crate::scanner::result::Severity::Minor,
                crate::scanner::result::DetectKind::InfiniteLoop,
            ),
        }
    }

    fn run(&mut self) -> (r: &crate::scanner::result::DetectContent) {
        self.content.result = crate::scanner::detects::common::run_detector(
            crate::scanner::result::DetectKind::InfiniteLoop,
            self.packages,
        );
        &self.content
    }
}

} // verus!
