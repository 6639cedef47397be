use vstd::prelude::*;
use crate::move_ir::bytecode::{code_view, Bytecode, BytecodeV};

verus! {

/// The offset `k`, once for each of the first `m` of `temps` that is `t`.
pub open spec fn hits(temps: Seq<usize>, t: usize, k: usize, m: nat) -> Seq<usize>
    decreases m,
{
    if m == 0 {
        Seq::empty()
    } else if temps[m - 1] == t {
        hits(temps, t, k, (m - 1) as nat).push(k)
    } else {
        hits(temps, t, k, (m - 1) as nat)
    }
}

/// The offsets among the first `n` instructions of `code` at which the
/// temp `t` is written, in ascending order, one for each time it is named
/// as a destination.
pub open spec fn def_offsets(code: Seq<BytecodeV>, t: usize, n: nat) -> Seq<usize>
    decreases n,
{
    if n == 0 {
        Seq::empty()
    } else {
        let ds = code[n - 1].dsts();
        def_offsets(code, t, (n - 1) as nat) + hits(ds, t, (n - 1) as usize, ds.len())
    }
}

/// The offsets among the first `n` instructions of `code` at which the
/// temp `t` is read, in ascending order, one for each time it is named as
/// a source.
pub open spec fn use_offsets(code: Seq<BytecodeV>, t: usize, n: nat) -> Seq<usize>
    decreases n,
{
    if n == 0 {
        Seq::empty()
    } else {
        let ss = code[n - 1].srcs();
        use_offsets(code, t, (n - 1) as nat) + hits(ss, t, (n - 1) as usize, ss.len())
    }
}

/// Appends `offset` to the list of each of `temps` that the table has a
/// list for.
fn record(table: &mut Vec<Vec<usize>>, temps: &Vec<usize>, offset: usize)
    ensures
        final(table)@.len() == old(table)@.len(),
        forall|t: int|
            0 <= t < old(table)@.len() ==> (#[trigger] final(table)@[t])@ == old(table)@[t]@ + hits(
                temps@,
                t as usize,
                offset,
                temps@.len(),
            ),
{
    let mut i: usize = 0;
    assert forall|t: int| 0 <= t < table@.len() implies (#[trigger] table@[t])@ =~= old(table)@[t]@ + hits(temps@, t as usize, offset, 0) by {}
    while i < temps.len()
        invariant
            i <= temps.len(),
            table@.len() == old(table)@.len(),
            forall|t: int|
                0 <= t < table@.len() ==> (#[trigger] table@[t])@ == old(table)@[t]@ + hits(
                    temps@,
                    t as usize,
                    offset,
                    i as nat,
                ),
        decreases temps.len() - i,
    {
        let d = temps[i];
        let ghost before = table@;
        if d < table.len() {
            let mut inner: Vec<usize> = Vec::new();
            std::mem::swap(&mut table[d], &mut inner);
            inner.push(offset);
            std::mem::swap(&mut table[d], &mut inner);
        }
        assert forall|t: int| 0 <= t < table@.len() implies (#[trigger] table@[t])@ =~= old(table)@[t]@ + hits(temps@, t as usize, offset, (i + 1) as nat) by {
            assert(before[t]@ == old(table)@[t]@ + hits(temps@, t as usize, offset, i as nat));
        }
        i += 1;
    }
}

/// The table of definitions of `n_ty` temps: for each temp the offsets of
/// `code` at which it is written.
pub open spec fn def_table(code: Seq<BytecodeV>, n_ty: nat) -> Seq<Seq<usize>> {
    Seq::new(n_ty, |t: int| def_offsets(code, t as usize, code.len()))
}

/// The table of uses of `n_ty` temps: for each temp the offsets of `code`
/// at which it is read.
pub open spec fn use_table(code: Seq<BytecodeV>, n_ty: nat) -> Seq<Seq<usize>> {
    Seq::new(n_ty, |t: int| use_offsets(code, t as usize, code.len()))
}

pub open spec fn table_view(table: Seq<Vec<usize>>) -> Seq<Seq<usize>> {
    Seq::new(table.len(), |t: int| table[t]@)
}

fn one(t: usize) -> (r: Vec<usize>)
    ensures
        r@ == seq![t],
{
    let r = vec![t];
    assert(r@ =~= seq![t]);
    r
}

fn empty_table(n: usize) -> (r: Vec<Vec<usize>>)
    ensures
        r@.len() == n,
        forall|t: int| 0 <= t < n ==> (#[trigger] r@[t])@ == Seq::<usize>::empty(),
{
    let mut r: Vec<Vec<usize>> = Vec::new();
    let mut i: usize = 0;
    while i < n
        invariant
            i <= n,
            r@.len() == i,
            forall|t: int| 0 <= t < i ==> (#[trigger] r@[t])@ == Seq::<usize>::empty(),
        decreases n - i,
    {
        r.push(Vec::new());
        i += 1;
    }
    r
}

/// For each of `n_ty` temps, the offsets of `code` at which it is written
/// and those at which it is read.
pub fn build_def_use(code: &Vec<Bytecode>, n_ty: usize) -> (r: (Vec<Vec<usize>>, Vec<Vec<usize>>))
    ensures
        table_view(r.0@) == def_table(code_view(code@), n_ty as nat),
        table_view(r.1@) == use_table(code_view(code@), n_ty as nat),
{
    let ghost cv = code_view(code@);
    let mut defs = empty_table(n_ty);
    let mut uses = empty_table(n_ty);
    let mut k: usize = 0;
    while k < code.len()
        invariant
            k <= code.len(),
            cv == code_view(code@),
            defs@.len() == n_ty,
            uses@.len() == n_ty,
            forall|t: int| 0 <= t < n_ty ==> (#[trigger] defs@[t])@ == def_offsets(cv, t as usize, k as nat),
            forall|t: int| 0 <= t < n_ty ==> (#[trigger] uses@[t])@ == use_offsets(cv, t as usize, k as nat),
        decreases code.len() - k,
    {
        let ghost d0 = defs@;
        let ghost u0 = uses@;
        let none: Vec<usize> = Vec::new();
        assert(none@ =~= Seq::<usize>::empty());
        assert(cv[k as int] == code@[k as int]@);
        match &code[k] {
            Bytecode::Assign(_, dst, src, _) => {
                record(&mut defs, &one(*dst), k);
                record(&mut uses, &one(*src), k);
            },
            Bytecode::Call(_, dsts, _, srcs, _) => {
                record(&mut defs, dsts, k);
                record(&mut uses, srcs, k);
            },
            Bytecode::Ret(_, srcs) => {
                record(&mut defs, &none, k);
                record(&mut uses, srcs, k);
            },
            Bytecode::Load(_, dst, _) => {
                record(&mut defs, &one(*dst), k);
                record(&mut uses, &none, k);
            },
            Bytecode::Branch(_, _, _, src) => {
                record(&mut defs, &none, k);
                record(&mut uses, &one(*src), k);
            },
            Bytecode::Abort(_, src) => {
                record(&mut defs, &none, k);
                record(&mut uses, &one(*src), k);
            },
            _ => {
                record(&mut defs, &none, k);
                record(&mut uses, &none, k);
            },
        }
        assert forall|t: int| 0 <= t < n_ty implies (#[trigger] defs@[t])@ == def_offsets(
            cv,
            t as usize,
            (k + 1) as nat,
        ) by {
            assert(d0[t]@ == def_offsets(cv, t as usize, k as nat));
        }
        assert forall|t: int| 0 <= t < n_ty implies (#[trigger] uses@[t])@ == use_offsets(
            cv,
            t as usize,
            (k + 1) as nat,
        ) by {
            assert(u0[t]@ == use_offsets(cv, t as usize, k as nat));
        }
        k += 1;
    }
    assert(table_view(defs@) =~= def_table(cv, n_ty as nat));
    assert(table_view(uses@) =~= use_table(cv, n_ty as nat));
    (defs, uses)
}

/// The code with a jump put before every label that the instruction
/// before it would otherwise fall through to, over the first `n`
/// instructions.
pub open spec fn with_jumps(code: Seq<BytecodeV>, n: nat) -> Seq<BytecodeV>
    decreases n,
{
    if n == 0 {
        Seq::empty()
    } else {
        let out = with_jumps(code, (n - 1) as nat);
        match code[n - 1] {
            BytecodeV::Label(attr, l) => if out.len() > 0 && !out.last().is_branch() {
                out.push(BytecodeV::Jump(attr, l)).push(code[n - 1])
            } else {
                out.push(code[n - 1])
            },
            _ => out.push(code[n - 1]),
        }
    }
}

/// Puts a jump to its label before every label that is not preceded by a
/// jump, a branch, a return or an abort, so that every basic block ends
/// in one of these.
pub fn eliminate_fallthrough(code: Vec<Bytecode>) -> (r: Vec<Bytecode>)
    ensures
        code_view(r@) == with_jumps(code_view(code@), code@.len()),
{
    let ghost cv = code_view(code@);
    let mut out: Vec<Bytecode> = Vec::new();
    let mut k: usize = 0;
    assert(code_view(out@) =~= with_jumps(cv, 0));
    while k < code.len()
        invariant
            k <= code.len(),
            cv == code_view(code@),
            code_view(out@) == with_jumps(cv, k as nat),
        decreases code.len() - k,
    {
        assert(cv[k as int] == code@[k as int]@);
        let ghost before = code_view(out@);
        let bc = crate::move_ir::bytecode::clone_bytecode(&code[k]);
        match &bc {
            Bytecode::Label(attr_id, label) => {
                if out.len() > 0 && !out[out.len() - 1].is_branch() {
                    assert(before.last() == out@[out@.len() - 1]@);
                    crate::move_ir::emit::emit(&mut out, Bytecode::Jump(*attr_id, *label));
                } else {
                    assert(out@.len() > 0 ==> before.last() == out@[out@.len() - 1]@);
                }
            },
            _ => {},
        }
        crate::move_ir::emit::emit(&mut out, bc);
        k += 1;
    }
    out
}

} // verus!
