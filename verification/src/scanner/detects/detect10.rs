use vstd::prelude::*;
use crate::move_ir::bytecode::{code_view, Bytecode, BytecodeV, Operation, OperationV};
use crate::move_ir::control_flow_graph::{Block, BlockContent, StacklessControlFlowGraph};
use vstd::string::StringExecFns;
use crate::move_ir::generate_bytecode::{FunctionInfo, StacklessBytecodeGenerator};
use crate::move_ir::packages::Packages;
use crate::move_ir::utils::is_native;
use crate::scanner::detects::common::{all_ready, fun_names, names_of, ready};
use crate::utils::strings::{join, joined, texts};
use crate::move_ir::types::{
    clone_types, types_eq, types_view, FunId, ModuleId, StructId, Type, TypeV,
};

verus! {

/// A call of a function: the module and the name of the callee, the temps
/// it is handed, and its type arguments.
pub struct CallSite {
    pub mid: ModuleId,
    pub funid: FunId,
    pub args: Vec<usize>,
    pub targs: Vec<Type>,
}

pub ghost struct CallSiteV {
    pub mid: ModuleId,
    pub funid: FunId,
    pub args: Seq<usize>,
    pub targs: Seq<TypeV>,
}

impl View for CallSite {
    type V = CallSiteV;

    open spec fn view(&self) -> CallSiteV {
        CallSiteV {
            mid: self.mid,
            funid: self.funid,
            args: self.args@,
            targs: types_view(self.targs@),
        }
    }
}

/// A field of a struct: the struct with its type arguments, and the
/// offset of the field.
pub struct FieldKey {
    pub mid: ModuleId,
    pub sid: StructId,
    pub targs: Vec<Type>,
    pub offset: usize,
}

pub ghost struct FieldKeyV {
    pub mid: ModuleId,
    pub sid: StructId,
    pub targs: Seq<TypeV>,
    pub offset: usize,
}

impl View for FieldKey {
    type V = FieldKeyV;

    open spec fn view(&self) -> FieldKeyV {
        FieldKeyV {
            mid: self.mid,
            sid: self.sid,
            targs: types_view(self.targs@),
            offset: self.offset,
        }
    }
}

/// The temps that borrow one field of the struct in the temp `var`.
pub struct FieldEntry {
    pub var: usize,
    pub key: FieldKey,
    pub set: Vec<usize>,
}

pub ghost struct FieldEntryV {
    pub var: usize,
    pub key: FieldKeyV,
    pub set: Seq<usize>,
}

impl View for FieldEntry {
    type V = FieldEntryV;

    open spec fn view(&self) -> FieldEntryV {
        FieldEntryV { var: self.var, key: self.key@, set: self.set@ }
    }
}

pub open spec fn sets_view(sets: Seq<Vec<usize>>) -> Seq<Seq<usize>> {
    Seq::new(sets.len(), |i: int| sets[i]@)
}

pub open spec fn sites_view(sites: Seq<CallSite>) -> Seq<CallSiteV> {
    Seq::new(sites.len(), |i: int| sites[i]@)
}

pub open spec fn fields_view(fields: Seq<FieldEntry>) -> Seq<FieldEntryV> {
    Seq::new(fields.len(), |i: int| fields[i]@)
}

pub open spec fn calls_view(calls: Seq<(usize, Vec<CallSite>)>) -> Seq<(usize, Seq<CallSiteV>)> {
    Seq::new(calls.len(), |i: int| (calls[i].0, sites_view(calls[i].1@)))
}

/// The set `s` with `x`, which goes behind the others unless `s` holds
/// it.
pub open spec fn with_member(s: Seq<usize>, x: usize) -> Seq<usize> {
    if s.contains(x) {
        s
    } else {
        s.push(x)
    }
}

/// One of the first `k` of `sets` holds `x`.
pub open spec fn any_holds(sets: Seq<Seq<usize>>, x: usize, k: nat) -> bool
    decreases k,
{
    k > 0 && (any_holds(sets, x, (k - 1) as nat) || sets[k - 1].contains(x))
}

/// `sets` with `dst` put into each of the first `k` that holds `src`.
pub open spec fn merged(sets: Seq<Seq<usize>>, src: usize, dst: usize, k: nat) -> Seq<Seq<usize>> {
    Seq::new(
        sets.len(),
        |i: int|
            if i < k && sets[i].contains(src) {
                with_member(sets[i], dst)
            } else {
                sets[i]
            },
    )
}

/// `sets` after `dst` is known to equal `src`: `dst` goes into every set
/// that holds `src`, and where there is none, the two make a set of their
/// own.
pub open spec fn related(sets: Seq<Seq<usize>>, src: usize, dst: usize) -> Seq<Seq<usize>> {
    if any_holds(sets, src, sets.len()) {
        merged(sets, src, dst, sets.len())
    } else {
        sets.push(with_member(seq![dst], src))
    }
}

pub fn holds(s: &Vec<usize>, x: usize) -> (r: bool)
    ensures
        r == s@.contains(x),
{
    let mut i: usize = 0;
    while i < s.len()
        invariant
            i <= s.len(),
            forall|j: int| 0 <= j < i ==> s@[j] != x,
        decreases s.len() - i,
    {
        if s[i] == x {
            return true;
        }
        i += 1;
    }
    false
}

pub fn add_member(s: &mut Vec<usize>, x: usize)
    ensures
        final(s)@ == with_member(old(s)@, x),
{
    if !holds(s, x) {
        s.push(x);
    }
}

/// Records that `dst` equals `src`.
#[verifier::loop_isolation(false)]
pub fn relate(sets: &mut Vec<Vec<usize>>, src: usize, dst: usize)
    ensures
        sets_view(final(sets)@) == related(sets_view(old(sets)@), src, dst),
{
    let ghost sv = sets_view(sets@);
    let n = sets.len();
    let mut flag = false;
    let mut i: usize = 0;
    assert(sets_view(sets@) =~= merged(sv, src, dst, 0));
    while i < n
        invariant
            i <= n,
            sets@.len() == n,
            flag == any_holds(sv, src, i as nat),
            sets_view(sets@) == merged(sv, src, dst, i as nat),
        decreases n - i,
    {
        let ghost before = sets_view(sets@);
        assert(before[i as int] == sets@[i as int]@);
        if holds(&sets[i], src) {
            add_member(&mut sets[i], dst);
            flag = true;
        }
        assert(sets_view(sets@) =~= merged(sv, src, dst, (i + 1) as nat)) by {
            assert forall|x: int| 0 <= x < n implies sets_view(sets@)[x] == merged(
                sv,
                src,
                dst,
                (i + 1) as nat,
            )[x] by {
                if x != i {
                    assert(sets_view(sets@)[x] == before[x]);
                }
            }
        }
        i += 1;
    }
    if !flag {
        let mut fresh: Vec<usize> = Vec::new();
        fresh.push(dst);
        assert(fresh@ =~= seq![dst]);
        add_member(&mut fresh, src);
        sets.push(fresh);
        assert(sets_view(sets@) =~= sv.push(with_member(seq![dst], src))) by {
            assert forall|x: int| 0 <= x < n implies sets_view(sets@)[x] == sv[x] by {
                assert(merged(sv, src, dst, n as nat)[x] == sv[x]) by {
                    lemma_none_holds(sv, src, n as nat, x);
                }
            }
        }
    }
}

/// Where none of the first `k` sets holds `x`, none of them does.
pub proof fn lemma_none_holds(sets: Seq<Seq<usize>>, x: usize, k: nat, i: int)
    requires
        !any_holds(sets, x, k),
        0 <= i < k,
    ensures
        !sets[i].contains(x),
    decreases k,
{
    if i < k - 1 {
        lemma_none_holds(sets, x, (k - 1) as nat, i);
    }
}

/// The first among the first `k` of `fields` that records the field
/// `key` of the struct in `var`.
pub open spec fn field_at(fields: Seq<FieldEntryV>, var: usize, key: FieldKeyV, k: nat) -> Option<int>
    decreases k,
{
    if k == 0 {
        None
    } else {
        match field_at(fields, var, key, (k - 1) as nat) {
            Some(m) => Some(m),
            None => if fields[k - 1].var == var && fields[k - 1].key == key {
                Some(k - 1)
            } else {
                None
            },
        }
    }
}

/// What a search for earlier borrows of a field has found so far: the
/// records, with the new borrower put in where the field was found, and
/// a temp that borrowed the field before.
pub ghost struct FieldScan {
    pub fields: Seq<FieldEntryV>,
    pub same: Option<usize>,
}

/// The search after it has looked at the struct in `var`.
pub open spec fn visit(scan: FieldScan, var: usize, key: FieldKeyV, dst: usize) -> FieldScan {
    match field_at(scan.fields, var, key, scan.fields.len()) {
        Some(m) => if scan.fields[m].set.len() > 0 {
            FieldScan {
                fields: scan.fields.update(
                    m,
                    FieldEntryV { set: with_member(scan.fields[m].set, dst), ..scan.fields[m] },
                ),
                same: Some(scan.fields[m].set[0]),
            }
        } else {
            scan
        },
        None => scan,
    }
}

/// The search after it has looked at the first `j` temps of `set`.
pub open spec fn visit_set(scan: FieldScan, set: Seq<usize>, key: FieldKeyV, dst: usize, j: nat) -> FieldScan
    decreases j,
{
    if j == 0 {
        scan
    } else {
        visit(visit_set(scan, set, key, dst, (j - 1) as nat), set[j - 1], key, dst)
    }
}

/// The search after it has looked at the temps of those among the first
/// `i` of `sets` that hold `a`.
pub open spec fn visit_sets(
    scan: FieldScan,
    sets: Seq<Seq<usize>>,
    a: usize,
    key: FieldKeyV,
    dst: usize,
    i: nat,
) -> FieldScan
    decreases i,
{
    if i == 0 {
        scan
    } else {
        let prev = visit_sets(scan, sets, a, key, dst, (i - 1) as nat);
        if sets[i - 1].contains(a) {
            visit_set(prev, sets[i - 1], key, dst, sets[i - 1].len())
        } else {
            prev
        }
    }
}

/// The first among the first `k` of `fields` that records a field of the
/// struct in `var`.
pub open spec fn var_at(fields: Seq<FieldEntryV>, var: usize, k: nat) -> Option<int>
    decreases k,
{
    if k == 0 {
        None
    } else {
        match var_at(fields, var, (k - 1) as nat) {
            Some(m) => Some(m),
            None => if fields[k - 1].var == var {
                Some(k - 1)
            } else {
                None
            },
        }
    }
}

/// The records with `entry` in the place of the record of its struct, or
/// behind all records where the struct has none.
pub open spec fn field_put(fields: Seq<FieldEntryV>, entry: FieldEntryV) -> Seq<FieldEntryV> {
    match var_at(fields, entry.var, fields.len()) {
        Some(m) => fields.update(m, entry),
        None => fields.push(entry),
    }
}

/// The sets of equal temps and the records of borrowed fields after
/// `dst` borrows the field `key` of the struct in `a`: where a temp equal
/// to `a` has lent that field before, `dst` equals the earlier borrower;
/// else `dst` is the first borrower of a field of `a`.
pub open spec fn field_borrowed(
    sets: Seq<Seq<usize>>,
    fields: Seq<FieldEntryV>,
    a: usize,
    dst: usize,
    key: FieldKeyV,
) -> (Seq<Seq<usize>>, Seq<FieldEntryV>) {
    let scan = visit_sets(FieldScan { fields, same: None }, sets, a, key, dst, sets.len());
    match scan.same {
        Some(v) => (merged(sets, v, dst, sets.len()), scan.fields),
        None => (sets.push(seq![dst]), field_put(fields, FieldEntryV { var: a, key, set: seq![dst] })),
    }
}

pub fn key_eq(a: &FieldKey, b: &FieldKey) -> (r: bool)
    ensures
        r == (a@ == b@),
{
    a.mid == b.mid && a.sid == b.sid && a.offset == b.offset && types_eq(&a.targs, &b.targs)
}

#[verifier::loop_isolation(false)]
fn find_field(fields: &Vec<FieldEntry>, var: usize, key: &FieldKey) -> (r: Option<usize>)
    ensures
        match r {
            Some(m) => field_at(fields_view(fields@), var, key@, fields@.len()) == Some(m as int)
                && m < fields@.len(),
            None => field_at(fields_view(fields@), var, key@, fields@.len()) is None,
        },
{
    let ghost fv = fields_view(fields@);
    let mut k: usize = 0;
    while k < fields.len()
        invariant
            k <= fields.len(),
            field_at(fv, var, key@, k as nat) is None,
        decreases fields.len() - k,
    {
        assert(fv[k as int] == fields@[k as int]@);
        if fields[k].var == var && key_eq(&fields[k].key, key) {
            proof {
                lemma_field_at_stays(fv, var, key@, (k + 1) as nat, fv.len());
            }
            return Some(k);
        }
        k += 1;
    }
    None
}

proof fn lemma_field_at_stays(fields: Seq<FieldEntryV>, var: usize, key: FieldKeyV, k: nat, n: nat)
    requires
        k <= n,
        field_at(fields, var, key, k) is Some,
    ensures
        field_at(fields, var, key, n) == field_at(fields, var, key, k),
    decreases n,
{
    if k < n {
        lemma_field_at_stays(fields, var, key, k, (n - 1) as nat);
    }
}

/// A search that has found nothing has left the records as they were.
proof fn lemma_visit_none(scan: FieldScan, var: usize, key: FieldKeyV, dst: usize)
    ensures
        visit(scan, var, key, dst).same is None ==> scan.same is None && visit(
            scan,
            var,
            key,
            dst,
        ).fields == scan.fields,
{
}

proof fn lemma_visit_set_none(scan: FieldScan, set: Seq<usize>, key: FieldKeyV, dst: usize, j: nat)
    ensures
        visit_set(scan, set, key, dst, j).same is None ==> scan.same is None && visit_set(
            scan,
            set,
            key,
            dst,
            j,
        ).fields == scan.fields,
    decreases j,
{
    if j > 0 {
        lemma_visit_set_none(scan, set, key, dst, (j - 1) as nat);
        lemma_visit_none(visit_set(scan, set, key, dst, (j - 1) as nat), set[j - 1], key, dst);
    }
}

proof fn lemma_scan_none(
    scan: FieldScan,
    sets: Seq<Seq<usize>>,
    a: usize,
    key: FieldKeyV,
    dst: usize,
    i: nat,
)
    ensures
        visit_sets(scan, sets, a, key, dst, i).same is None ==> scan.same is None && visit_sets(
            scan,
            sets,
            a,
            key,
            dst,
            i,
        ).fields == scan.fields,
    decreases i,
{
    if i > 0 {
        lemma_scan_none(scan, sets, a, key, dst, (i - 1) as nat);
        let prev = visit_sets(scan, sets, a, key, dst, (i - 1) as nat);
        if sets[i - 1].contains(a) {
            lemma_visit_set_none(prev, sets[i - 1], key, dst, sets[i - 1].len());
        }
    }
}

proof fn lemma_var_at_stays(fields: Seq<FieldEntryV>, var: usize, k: nat, n: nat)
    requires
        k <= n,
        var_at(fields, var, k) is Some,
    ensures
        var_at(fields, var, n) == var_at(fields, var, k),
    decreases n,
{
    if k < n {
        lemma_var_at_stays(fields, var, k, (n - 1) as nat);
    }
}

fn visit_exec(fields: &mut Vec<FieldEntry>, same: &mut Option<usize>, var: usize, key: &FieldKey, dst: usize)
    ensures
        (FieldScan { fields: fields_view(final(fields)@), same: *final(same) }) == visit(
            FieldScan { fields: fields_view(old(fields)@), same: *old(same) },
            var,
            key@,
            dst,
        ),
{
    let ghost fv = fields_view(fields@);
    match find_field(fields, var, key) {
        Some(m) => {
            assert(fv[m as int] == fields@[m as int]@);
            if fields[m].set.len() > 0 {
                *same = Some(fields[m].set[0]);
                add_member(&mut fields[m].set, dst);
                assert(fields_view(fields@) =~= fv.update(
                    m as int,
                    FieldEntryV { set: with_member(fv[m as int].set, dst), ..fv[m as int] },
                ));
            }
        },
        None => {},
    }
}

/// Records that `dst` borrows the field `key` of the struct in `a`.
#[verifier::loop_isolation(false)]
pub fn borrow_field(
    sets: &mut Vec<Vec<usize>>,
    fields: &mut Vec<FieldEntry>,
    a: usize,
    dst: usize,
    key: FieldKey,
)
    ensures
        (sets_view(final(sets)@), fields_view(final(fields)@)) == field_borrowed(
            sets_view(old(sets)@),
            fields_view(old(fields)@),
            a,
            dst,
            key@,
        ),
{
    let ghost sv = sets_view(sets@);
    let ghost fv = fields_view(fields@);
    let ghost start = FieldScan { fields: fv, same: None };
    let mut same: Option<usize> = None;
    let mut i: usize = 0;
    while i < sets.len()
        invariant
            i <= sets.len(),
            sets@ == old(sets)@,
            (FieldScan { fields: fields_view(fields@), same }) == visit_sets(
                start,
                sv,
                a,
                key@,
                dst,
                i as nat,
            ),
        decreases sets.len() - i,
    {
        assert(sv[i as int] == sets@[i as int]@);
        if holds(&sets[i], a) {
            let ghost base = FieldScan { fields: fields_view(fields@), same };
            let mut j: usize = 0;
            while j < sets[i].len()
                invariant
                    j <= sets@[i as int]@.len(),
                    sets@ == old(sets)@,
                    (FieldScan { fields: fields_view(fields@), same }) == visit_set(
                        base,
                        sv[i as int],
                        key@,
                        dst,
                        j as nat,
                    ),
                decreases sets@[i as int]@.len() - j,
            {
                let var = sets[i][j];
                visit_exec(fields, &mut same, var, &key, dst);
                j += 1;
            }
        }
        i += 1;
    }
    match same {
        Some(v) => {
            let ghost before = sets_view(sets@);
            let n = sets.len();
            let mut k: usize = 0;
            assert(sets_view(sets@) =~= merged(sv, v, dst, 0));
            while k < n
                invariant
                    k <= n,
                    sets@.len() == n,
                    fields_view(fields@) == visit_sets(start, sv, a, key@, dst, sv.len()).fields,
                    sets_view(sets@) == merged(sv, v, dst, k as nat),
                decreases n - k,
            {
                let ghost mid = sets_view(sets@);
                assert(mid[k as int] == sets@[k as int]@);
                if holds(&sets[k], v) {
                    add_member(&mut sets[k], dst);
                }
                assert(sets_view(sets@) =~= merged(sv, v, dst, (k + 1) as nat)) by {
                    assert forall|x: int| 0 <= x < n implies sets_view(sets@)[x] == merged(
                        sv,
                        v,
                        dst,
                        (k + 1) as nat,
                    )[x] by {
                        if x != k {
                            assert(sets_view(sets@)[x] == mid[x]);
                        }
                    }
                }
                k += 1;
            }
        },
        None => {
            proof {
                lemma_scan_none(start, sv, a, key@, dst, sv.len());
            }
            let mut only: Vec<usize> = Vec::new();
            only.push(dst);
            assert(only@ =~= seq![dst]);
            let mut first: Vec<usize> = Vec::new();
            first.push(dst);
            assert(first@ =~= seq![dst]);
            sets.push(only);
            assert(sets_view(sets@) =~= sv.push(seq![dst]));
            let entry = FieldEntry { var: a, key, set: first };
            let mut m: usize = 0;
            let mut found: Option<usize> = None;
            while m < fields.len()
                invariant
                    m <= fields.len(),
                    fields_view(fields@) == fv,
                    found is None,
                    var_at(fv, a, m as nat) is None,
                decreases fields.len() - m,
            {
                assert(fv[m as int] == fields@[m as int]@);
                if fields[m].var == a {
                    found = Some(m);
                    proof {
                        lemma_var_at_stays(fv, a, (m + 1) as nat, fv.len());
                    }
                    break;
                }
                m += 1;
            }
            match found {
                Some(x) => {
                    fields[x] = entry;
                    assert(fields_view(fields@) =~= fv.update(x as int, entry@));
                },
                None => {
                    fields.push(entry);
                    assert(fields_view(fields@) =~= fv.push(entry@));
                },
            }
        },
    }
}

/// What the walk knows of the temps: the sets of temps known to be
/// equal, the fields borrowed, and the calls of the block at hand.
pub ghost struct Tracking {
    pub sets: Seq<Seq<usize>>,
    pub fields: Seq<FieldEntryV>,
    pub funcs: Seq<CallSiteV>,
}

/// The operation hands a reference on without changing what it points
/// to.
pub open spec fn passes_reference(op: OperationV) -> bool {
    op is BorrowLoc || op is BorrowGlobal || op is FreezeRef || op is ReadRef
}

/// What the walk knows after the instruction `bc`: a call of a function
/// is noted; an assignment and an operation that hands a reference on
/// make their result equal to their operand; a borrow of a field is
/// recorded with the struct.
pub open spec fn noted(t: Tracking, bc: BytecodeV) -> Tracking {
    match bc {
        BytecodeV::Call(_, dsts, op, args, _) => match op {
            OperationV::Function(mid, funid, targs) => Tracking {
                funcs: t.funcs.push(CallSiteV { mid, funid, args, targs }),
                ..t
            },
            OperationV::BorrowField(mid, sid, targs, offset) => if args.len() == 1 && dsts.len()
                == 1 {
                let r = field_borrowed(
                    t.sets,
                    t.fields,
                    args[0],
                    dsts[0],
                    FieldKeyV { mid, sid, targs, offset },
                );
                Tracking { sets: r.0, fields: r.1, ..t }
            } else {
                t
            },
            _ => if passes_reference(op) && args.len() == 1 && dsts.len() == 1 {
                Tracking { sets: related(t.sets, args[0], dsts[0]), ..t }
            } else {
                t
            },
        },
        BytecodeV::Assign(_, dst, src, _) => Tracking { sets: related(t.sets, src, dst), ..t },
        _ => t,
    }
}

/// What the walk knows after the instructions from offset `lower` up to,
/// but without, offset `k`.
pub open spec fn noted_range(t: Tracking, code: Seq<BytecodeV>, lower: nat, k: nat) -> Tracking
    decreases k,
{
    if k <= lower || k > code.len() {
        t
    } else {
        noted(noted_range(t, code, lower, (k - 1) as nat), code[k - 1])
    }
}

fn passes_reference_exec(op: &Operation) -> (r: bool)
    ensures
        r == passes_reference(op@),
{
    match op {
        Operation::BorrowLoc | Operation::BorrowGlobal(_, _, _) | Operation::FreezeRef
        | Operation::ReadRef => true,
        _ => false,
    }
}

fn track(
    sets: &mut Vec<Vec<usize>>,
    fields: &mut Vec<FieldEntry>,
    funcs: &mut Vec<CallSite>,
    bc: &Bytecode,
)
    ensures
        (Tracking {
            sets: sets_view(final(sets)@),
            fields: fields_view(final(fields)@),
            funcs: sites_view(final(funcs)@),
        }) == noted(
            Tracking {
                sets: sets_view(old(sets)@),
                fields: fields_view(old(fields)@),
                funcs: sites_view(old(funcs)@),
            },
            bc@,
        ),
{
    match bc {
        Bytecode::Call(_, dsts, oper, args, _) => {
            match oper {
                Operation::Function(mid, funid, targs) => {
                    let site = CallSite {
                        mid: *mid,
                        funid: *funid,
                        args: args.clone(),
                        targs: clone_types(targs),
                    };
                    let ghost before = sites_view(funcs@);
                    funcs.push(site);
                    assert(sites_view(funcs@) =~= before.push(site@));
                },
                Operation::BorrowField(mid, sid, targs, offset) => {
                    if args.len() == 1 && dsts.len() == 1 {
                        let key = FieldKey {
                            mid: *mid,
                            sid: *sid,
                            targs: clone_types(targs),
                            offset: *offset,
                        };
                        borrow_field(sets, fields, args[0], dsts[0], key);
                    }
                },
                _ => {
                    if passes_reference_exec(oper) && args.len() == 1 && dsts.len() == 1 {
                        relate(sets, args[0], dsts[0]);
                    }
                },
            }
        },
        Bytecode::Assign(_, dst, src, _) => {
            relate(sets, *src, *dst);
        },
        _ => {},
    }
}

/// Some of the first `k` of `sets` holds exactly one of `a` and `b`.
pub open spec fn splits(sets: Seq<Seq<usize>>, a: usize, b: usize, k: nat) -> bool
    decreases k,
{
    k > 0 && (splits(sets, a, b, (k - 1) as nat) || sets[k - 1].contains(a) != sets[k - 1].contains(
        b,
    ))
}

/// At one of the first `i` places that both have, the two lists of
/// arguments hold temps that some set tells apart.
pub open spec fn args_differ(sets: Seq<Seq<usize>>, old_args: Seq<usize>, args: Seq<usize>, i: nat) -> bool
    decreases i,
{
    i > 0 && (args_differ(sets, old_args, args, (i - 1) as nat) || (i <= old_args.len() && i
        <= args.len() && splits(sets, old_args[i - 1], args[i - 1], sets.len())))
}

/// The first among the first `k` of `seen` that calls `funid`.
pub open spec fn seen_at(seen: Seq<CallSiteV>, funid: FunId, k: nat) -> Option<int>
    decreases k,
{
    if k == 0 {
        None
    } else {
        match seen_at(seen, funid, (k - 1) as nat) {
            Some(m) => Some(m),
            None => if seen[k - 1].funid == funid {
                Some(k - 1)
            } else {
                None
            },
        }
    }
}

/// The calls met on the path, each function once, and the functions found
/// to be called twice alike.
pub ghost struct Check {
    pub seen: Seq<CallSiteV>,
    pub repeated: Seq<FunId>,
}

/// The check after the call `site`: a function not met before is noted; a
/// function met before is called twice alike if module and type arguments
/// are the same and no set tells an argument from the one in its place
/// before.
pub open spec fn checked(c: Check, sets: Seq<Seq<usize>>, site: CallSiteV) -> Check {
    if c.repeated.contains(site.funid) {
        c
    } else {
        match seen_at(c.seen, site.funid, c.seen.len()) {
            None => Check { seen: c.seen.push(site), ..c },
            Some(m) => {
                let old = c.seen[m];
                if site.mid != old.mid || site.targs != old.targs || args_differ(
                    sets,
                    old.args,
                    site.args,
                    old.args.len(),
                ) {
                    c
                } else {
                    Check { repeated: c.repeated.push(site.funid), ..c }
                }
            },
        }
    }
}

/// The check after the first `j` of `sites`.
pub open spec fn checked_sites(c: Check, sets: Seq<Seq<usize>>, sites: Seq<CallSiteV>, j: nat) -> Check
    decreases j,
{
    if j == 0 {
        c
    } else {
        checked(checked_sites(c, sets, sites, (j - 1) as nat), sets, sites[j - 1])
    }
}

/// The check after the calls of the first `i` blocks of `calls`.
pub open spec fn checked_calls(
    c: Check,
    sets: Seq<Seq<usize>>,
    calls: Seq<(usize, Seq<CallSiteV>)>,
    i: nat,
) -> Check
    decreases i,
{
    if i == 0 {
        c
    } else {
        checked_sites(
            checked_calls(c, sets, calls, (i - 1) as nat),
            sets,
            calls[i - 1].1,
            calls[i - 1].1.len(),
        )
    }
}

#[verifier::loop_isolation(false)]
fn splits_exec(sets: &Vec<Vec<usize>>, a: usize, b: usize) -> (r: bool)
    ensures
        r == splits(sets_view(sets@), a, b, sets@.len()),
{
    let ghost sv = sets_view(sets@);
    let mut k: usize = 0;
    while k < sets.len()
        invariant
            k <= sets.len(),
            !splits(sv, a, b, k as nat),
        decreases sets.len() - k,
    {
        assert(sv[k as int] == sets@[k as int]@);
        if holds(&sets[k], a) != holds(&sets[k], b) {
            proof {
                lemma_splits_more(sv, a, b, (k + 1) as nat, sv.len());
            }
            return true;
        }
        k += 1;
    }
    false
}

proof fn lemma_splits_more(sets: Seq<Seq<usize>>, a: usize, b: usize, k: nat, n: nat)
    requires
        k <= n,
        splits(sets, a, b, k),
    ensures
        splits(sets, a, b, n),
    decreases n,
{
    if k < n {
        lemma_splits_more(sets, a, b, k, (n - 1) as nat);
    }
}

proof fn lemma_args_differ_more(
    sets: Seq<Seq<usize>>,
    old_args: Seq<usize>,
    args: Seq<usize>,
    i: nat,
    n: nat,
)
    requires
        i <= n,
        args_differ(sets, old_args, args, i),
    ensures
        args_differ(sets, old_args, args, n),
    decreases n,
{
    if i < n {
        lemma_args_differ_more(sets, old_args, args, i, (n - 1) as nat);
    }
}

#[verifier::loop_isolation(false)]
fn args_differ_exec(sets: &Vec<Vec<usize>>, old_args: &Vec<usize>, args: &Vec<usize>) -> (r: bool)
    ensures
        r == args_differ(sets_view(sets@), old_args@, args@, old_args@.len()),
{
    let ghost sv = sets_view(sets@);
    let mut i: usize = 0;
    while i < old_args.len()
        invariant
            i <= old_args.len(),
            !args_differ(sv, old_args@, args@, i as nat),
        decreases old_args.len() - i,
    {
        if i < args.len() && splits_exec(sets, old_args[i], args[i]) {
            proof {
                lemma_args_differ_more(sv, old_args@, args@, (i + 1) as nat, old_args@.len());
            }
            return true;
        }
        i += 1;
    }
    false
}

proof fn lemma_seen_at_stays(seen: Seq<CallSiteV>, funid: FunId, k: nat, n: nat)
    requires
        k <= n,
        seen_at(seen, funid, k) is Some,
    ensures
        seen_at(seen, funid, n) == seen_at(seen, funid, k),
    decreases n,
{
    if k < n {
        lemma_seen_at_stays(seen, funid, k, (n - 1) as nat);
    }
}

#[verifier::loop_isolation(false)]
fn find_seen(seen: &Vec<CallSite>, funid: FunId) -> (r: Option<usize>)
    ensures
        match r {
            Some(m) => seen_at(sites_view(seen@), funid, seen@.len()) == Some(m as int) && m
                < seen@.len(),
            None => seen_at(sites_view(seen@), funid, seen@.len()) is None,
        },
{
    let ghost sv = sites_view(seen@);
    let mut k: usize = 0;
    while k < seen.len()
        invariant
            k <= seen.len(),
            seen_at(sv, funid, k as nat) is None,
        decreases seen.len() - k,
    {
        assert(sv[k as int] == seen@[k as int]@);
        if seen[k].funid == funid {
            proof {
                lemma_seen_at_stays(sv, funid, (k + 1) as nat, sv.len());
            }
            return Some(k);
        }
        k += 1;
    }
    None
}

fn holds_fun(v: &Vec<FunId>, f: FunId) -> (r: bool)
    ensures
        r == v@.contains(f),
{
    let mut i: usize = 0;
    while i < v.len()
        invariant
            i <= v.len(),
            forall|j: int| 0 <= j < i ==> v@[j] != f,
        decreases v.len() - i,
    {
        if v[i] == f {
            return true;
        }
        i += 1;
    }
    false
}

fn check_site(seen: &mut Vec<CallSite>, repeated: &mut Vec<FunId>, sets: &Vec<Vec<usize>>, site: &CallSite)
    ensures
        (Check { seen: sites_view(final(seen)@), repeated: final(repeated)@ }) == checked(
            Check { seen: sites_view(old(seen)@), repeated: old(repeated)@ },
            sets_view(sets@),
            site@,
        ),
{
    let ghost sv = sites_view(seen@);
    if holds_fun(repeated, site.funid) {
        return;
    }
    match find_seen(seen, site.funid) {
        None => {
            let copy = CallSite {
                mid: site.mid,
                funid: site.funid,
                args: site.args.clone(),
                targs: clone_types(&site.targs),
            };
            seen.push(copy);
            assert(sites_view(seen@) =~= sv.push(site@));
        },
        Some(m) => {
            assert(sv[m as int] == seen@[m as int]@);
            let old = &seen[m];
            let differ = site.mid != old.mid || !types_eq(&site.targs, &old.targs)
                || args_differ_exec(sets, &old.args, &site.args);
            if !differ {
                repeated.push(site.funid);
            }
        },
    }
}

/// Checks the calls met on the path for functions called twice alike.
#[verifier::loop_isolation(false)]
pub fn check_calls(calls: &Vec<(usize, Vec<CallSite>)>, sets: &Vec<Vec<usize>>, repeated: &mut Vec<FunId>)
    ensures
        final(repeated)@ == checked_calls(
            Check { seen: Seq::empty(), repeated: old(repeated)@ },
            sets_view(sets@),
            calls_view(calls@),
            calls@.len(),
        ).repeated,
{
    let ghost cv = calls_view(calls@);
    let ghost sv = sets_view(sets@);
    let ghost start = Check { seen: Seq::empty(), repeated: repeated@ };
    let mut seen: Vec<CallSite> = Vec::new();
    assert(sites_view(seen@) =~= Seq::<CallSiteV>::empty());
    let mut i: usize = 0;
    while i < calls.len()
        invariant
            i <= calls.len(),
            (Check { seen: sites_view(seen@), repeated: repeated@ }) == checked_calls(
                start,
                sv,
                cv,
                i as nat,
            ),
        decreases calls.len() - i,
    {
        let sites = &calls[i].1;
        assert(cv[i as int].1 == sites_view(sites@));
        let ghost base = Check { seen: sites_view(seen@), repeated: repeated@ };
        let mut j: usize = 0;
        while j < sites.len()
            invariant
                j <= sites.len(),
                (Check { seen: sites_view(seen@), repeated: repeated@ }) == checked_sites(
                    base,
                    sv,
                    sites_view(sites@),
                    j as nat,
                ),
            decreases sites.len() - j,
        {
            assert(sites_view(sites@)[j as int] == sites@[j as int]@);
            check_site(&mut seen, repeated, sets, &sites[j]);
            j += 1;
        }
        i += 1;
    }
}

/// The first among the first `k` of `calls` that belongs to the block
/// `b`.
pub open spec fn call_at(calls: Seq<(usize, Seq<CallSiteV>)>, b: usize, k: nat) -> Option<int>
    decreases k,
{
    if k == 0 {
        None
    } else {
        match call_at(calls, b, (k - 1) as nat) {
            Some(m) => Some(m),
            None => if calls[k - 1].0 == b {
                Some(k - 1)
            } else {
                None
            },
        }
    }
}

/// The calls by block with `sites` as the calls of the block `b`.
pub open spec fn calls_put(
    calls: Seq<(usize, Seq<CallSiteV>)>,
    b: usize,
    sites: Seq<CallSiteV>,
) -> Seq<(usize, Seq<CallSiteV>)> {
    match call_at(calls, b, calls.len()) {
        Some(m) => calls.update(m, (b, sites)),
        None => calls.push((b, sites)),
    }
}

/// The calls by block without those of the block `b`.
pub open spec fn calls_without(calls: Seq<(usize, Seq<CallSiteV>)>, b: usize) -> Seq<
    (usize, Seq<CallSiteV>),
> {
    match call_at(calls, b, calls.len()) {
        Some(m) => calls.remove(m),
        None => calls,
    }
}

/// The path cut back to its last block `top`, and the calls by block
/// without those of the blocks cut off.
pub open spec fn trimmed(path: Seq<usize>, calls: Seq<(usize, Seq<CallSiteV>)>, top: usize) -> (
    Seq<usize>,
    Seq<(usize, Seq<CallSiteV>)>,
)
    decreases path.len(),
{
    if path.len() == 0 || path.last() == top {
        (path, calls)
    } else {
        trimmed(path.drop_last(), calls_without(calls, path.last()), top)
    }
}

/// Stack and path after those among the first `j` of `succs` that the
/// path does not hold are put on both.
pub open spec fn pushed(stack: Seq<usize>, path: Seq<usize>, succs: Seq<usize>, j: nat) -> (
    Seq<usize>,
    Seq<usize>,
)
    decreases j,
{
    if j == 0 {
        (stack, path)
    } else {
        let p = pushed(stack, path, succs, (j - 1) as nat);
        if p.1.contains(succs[j - 1]) {
            p
        } else {
            (p.0.push(succs[j - 1]), p.1.push(succs[j - 1]))
        }
    }
}

/// The state of the walk over the blocks of a function.
pub ghost struct Walk {
    /// The blocks still to be visited; the last comes next.
    pub stack: Seq<usize>,
    /// The blocks put on the stack since the path was last cut back.
    pub path: Seq<usize>,
    /// The calls of the blocks visited on the path, by block.
    pub calls: Seq<(usize, Seq<CallSiteV>)>,
    pub sets: Seq<Seq<usize>>,
    pub fields: Seq<FieldEntryV>,
    /// The functions found to be called twice alike.
    pub repeated: Seq<FunId>,
}

/// The walk after it has visited the block on top of its stack: the
/// successors that the path does not hold are put on stack and path; the
/// instructions of a basic block are noted; at the entry and at the exit
/// the calls met on the path are checked and the path is cut back to the
/// block that comes next.
pub open spec fn stepped(code: Seq<BytecodeV>, blocks: Seq<Block>, w: Walk) -> Walk {
    let b = w.stack.last();
    let popped = w.stack.drop_last();
    if b >= blocks.len() {
        Walk { stack: popped, ..w }
    } else {
        let p = pushed(popped, w.path, blocks[b as int].successors@, blocks[b as int].successors@.len());
        match blocks[b as int].content {
            BlockContent::Basic { lower, upper } => {
                let t = noted_range(
                    Tracking { sets: w.sets, fields: w.fields, funcs: Seq::empty() },
                    code,
                    lower as nat,
                    (upper + 1) as nat,
                );
                Walk {
                    stack: p.0,
                    path: p.1,
                    calls: calls_put(w.calls, b, t.funcs),
                    sets: t.sets,
                    fields: t.fields,
                    repeated: w.repeated,
                }
            },
            BlockContent::Dummy => {
                let repeated = checked_calls(
                    Check { seen: Seq::empty(), repeated: w.repeated },
                    w.sets,
                    w.calls,
                    w.calls.len(),
                ).repeated;
                let cut = if p.0.len() > 0 {
                    trimmed(p.1, w.calls, p.0.last())
                } else {
                    (p.1, w.calls)
                };
                Walk { stack: p.0, path: cut.0, calls: cut.1, repeated, ..w }
            },
        }
    }
}

/// The walk after at most `fuel` visits.
pub open spec fn walked(code: Seq<BytecodeV>, blocks: Seq<Block>, w: Walk, fuel: nat) -> Walk
    decreases fuel,
{
    if fuel == 0 || w.stack.len() == 0 {
        w
    } else {
        walked(code, blocks, stepped(code, blocks, w), (fuel - 1) as nat)
    }
}

/// The walk before its first visit: the entry is on stack and path.
pub open spec fn start_of(entry: usize) -> Walk {
    Walk {
        stack: seq![entry],
        path: seq![entry],
        calls: Seq::empty(),
        sets: Seq::empty(),
        fields: Seq::empty(),
        repeated: Seq::empty(),
    }
}

/// The functions that a function calls twice alike on some path through
/// its blocks, in the order in which the walk finds them.
pub open spec fn repeated_calls(function: &FunctionInfo, cfg: &StacklessControlFlowGraph) -> Seq<
    FunId,
> {
    walked(
        code_view(function.code@),
        cfg.blocks@,
        start_of(cfg.entry_block_id),
        usize::MAX as nat,
    ).repeated
}

proof fn lemma_call_at_stays(calls: Seq<(usize, Seq<CallSiteV>)>, b: usize, k: nat, n: nat)
    requires
        k <= n,
        call_at(calls, b, k) is Some,
    ensures
        call_at(calls, b, n) == call_at(calls, b, k),
    decreases n,
{
    if k < n {
        lemma_call_at_stays(calls, b, k, (n - 1) as nat);
    }
}

#[verifier::loop_isolation(false)]
fn find_calls(calls: &Vec<(usize, Vec<CallSite>)>, b: usize) -> (r: Option<usize>)
    ensures
        match r {
            Some(m) => call_at(calls_view(calls@), b, calls@.len()) == Some(m as int) && m
                < calls@.len(),
            None => call_at(calls_view(calls@), b, calls@.len()) is None,
        },
{
    let ghost cv = calls_view(calls@);
    let mut k: usize = 0;
    while k < calls.len()
        invariant
            k <= calls.len(),
            call_at(cv, b, k as nat) is None,
        decreases calls.len() - k,
    {
        assert(cv[k as int].0 == calls@[k as int].0);
        if calls[k].0 == b {
            proof {
                lemma_call_at_stays(cv, b, (k + 1) as nat, cv.len());
            }
            return Some(k);
        }
        k += 1;
    }
    None
}

fn put_calls(calls: &mut Vec<(usize, Vec<CallSite>)>, b: usize, sites: Vec<CallSite>)
    ensures
        calls_view(final(calls)@) == calls_put(calls_view(old(calls)@), b, sites_view(sites@)),
{
    let ghost cv = calls_view(calls@);
    match find_calls(calls, b) {
        Some(m) => {
            calls[m] = (b, sites);
            assert(calls_view(calls@) =~= cv.update(m as int, (b, sites_view(sites@))));
        },
        None => {
            calls.push((b, sites));
            assert(calls_view(calls@) =~= cv.push((b, sites_view(sites@))));
        },
    }
}

fn remove_calls(calls: &mut Vec<(usize, Vec<CallSite>)>, b: usize)
    ensures
        calls_view(final(calls)@) == calls_without(calls_view(old(calls)@), b),
{
    let ghost cv = calls_view(calls@);
    match find_calls(calls, b) {
        Some(m) => {
            calls.remove(m);
            assert(calls_view(calls@) =~= cv.remove(m as int));
        },
        None => {},
    }
}

#[verifier::loop_isolation(false)]
fn trim(path: &mut Vec<usize>, calls: &mut Vec<(usize, Vec<CallSite>)>, top: usize)
    ensures
        (final(path)@, calls_view(final(calls)@)) == trimmed(
            old(path)@,
            calls_view(old(calls)@),
            top,
        ),
{
    let ghost path0 = path@;
    let ghost c0 = calls_view(calls@);
    while path.len() > 0
        invariant
            trimmed(path0, c0, top) == trimmed(path@, calls_view(calls@), top),
        decreases path.len(),
    {
        let last = path[path.len() - 1];
        if last == top {
            break;
        }
        let ghost before = path@;
        path.pop();
        assert(path@ =~= before.drop_last());
        remove_calls(calls, last);
    }
}

#[verifier::loop_isolation(false)]
fn push_successors(stack: &mut Vec<usize>, path: &mut Vec<usize>, succs: &Vec<usize>)
    ensures
        (final(stack)@, final(path)@) == pushed(old(stack)@, old(path)@, succs@, succs@.len()),
{
    let ghost s0 = stack@;
    let ghost path0 = path@;
    let mut j: usize = 0;
    while j < succs.len()
        invariant
            j <= succs.len(),
            (stack@, path@) == pushed(s0, path0, succs@, j as nat),
        decreases succs.len() - j,
    {
        if !holds(path, succs[j]) {
            stack.push(succs[j]);
            path.push(succs[j]);
        }
        j += 1;
    }
}

/// Notes the instructions of the block from `lower` to `upper`.
#[verifier::loop_isolation(false)]
fn note_block(
    code: &Vec<Bytecode>,
    lower: usize,
    upper: usize,
    sets: &mut Vec<Vec<usize>>,
    fields: &mut Vec<FieldEntry>,
) -> (funcs: Vec<CallSite>)
    ensures
        (Tracking {
            sets: sets_view(final(sets)@),
            fields: fields_view(final(fields)@),
            funcs: sites_view(funcs@),
        }) == noted_range(
            Tracking {
                sets: sets_view(old(sets)@),
                fields: fields_view(old(fields)@),
                funcs: Seq::empty(),
            },
            code_view(code@),
            lower as nat,
            (upper + 1) as nat,
        ),
{
    let ghost cv = code_view(code@);
    let ghost start = Tracking {
        sets: sets_view(sets@),
        fields: fields_view(fields@),
        funcs: Seq::empty(),
    };
    let mut funcs: Vec<CallSite> = Vec::new();
    assert(sites_view(funcs@) =~= Seq::<CallSiteV>::empty());
    if upper >= code.len() || lower > upper {
        return funcs;
    }
    let mut k: usize = lower;
    while k <= upper
        invariant
            lower <= k <= upper + 1,
            (Tracking {
                sets: sets_view(sets@),
                fields: fields_view(fields@),
                funcs: sites_view(funcs@),
            }) == noted_range(start, cv, lower as nat, k as nat),
        decreases upper + 1 - k,
    {
        assert(cv[k as int] == code@[k as int]@);
        track(sets, fields, &mut funcs, &code[k]);
        k += 1;
    }
    funcs
}

/// The functions that the function calls twice alike on some path
/// through its blocks: twice with the same module, the same type
/// arguments, and arguments that nothing tells apart. `None` where there
/// is no such function, or no control-flow graph.
#[verifier::loop_isolation(false)]
pub fn detect_repeated_function_call(function: &FunctionInfo) -> (r: Option<Vec<FunId>>)
    ensures
        match function.cfg {
            None => r is None,
            Some(cfg) => {
                &&& r is Some <==> repeated_calls(function, &cfg).len() > 0
                &&& r matches Some(v) ==> v@ == repeated_calls(function, &cfg)
            },
        },
{
    let cfg = match &function.cfg {
        Some(cfg) => cfg,
        None => {
            return None;
        },
    };
    let code = &function.code;
    let ghost cv = code_view(code@);
    let ghost blocks = cfg.blocks@;
    let mut stack: Vec<usize> = Vec::new();
    let mut path: Vec<usize> = Vec::new();
    let mut calls: Vec<(usize, Vec<CallSite>)> = Vec::new();
    let mut sets: Vec<Vec<usize>> = Vec::new();
    let mut fields: Vec<FieldEntry> = Vec::new();
    let mut repeated: Vec<FunId> = Vec::new();
    stack.push(cfg.entry_block_id);
    path.push(cfg.entry_block_id);
    let mut fuel: usize = usize::MAX;
    let ghost start = start_of(cfg.entry_block_id);
    proof {
        assert(stack@ =~= start.stack);
        assert(path@ =~= start.path);
        assert(calls_view(calls@) =~= start.calls);
        assert(sets_view(sets@) =~= start.sets);
        assert(fields_view(fields@) =~= start.fields);
        assert(repeated@ =~= start.repeated);
    }
    while fuel > 0 && stack.len() > 0
        invariant
            walked(cv, blocks, start, usize::MAX as nat) == walked(
                cv,
                blocks,
                Walk {
                    stack: stack@,
                    path: path@,
                    calls: calls_view(calls@),
                    sets: sets_view(sets@),
                    fields: fields_view(fields@),
                    repeated: repeated@,
                },
                fuel as nat,
            ),
        decreases fuel,
    {
        let ghost w = Walk {
            stack: stack@,
            path: path@,
            calls: calls_view(calls@),
            sets: sets_view(sets@),
            fields: fields_view(fields@),
            repeated: repeated@,
        };
        let block_id = stack.pop().unwrap();
        assert(stack@ =~= w.stack.drop_last());
        if block_id < cfg.blocks.len() {
            push_successors(&mut stack, &mut path, &cfg.blocks[block_id].successors);
            match cfg.blocks[block_id].content {
                BlockContent::Basic { lower, upper } => {
                    let funcs = note_block(code, lower, upper, &mut sets, &mut fields);
                    put_calls(&mut calls, block_id, funcs);
                },
                BlockContent::Dummy => {
                    check_calls(&calls, &sets, &mut repeated);
                    if stack.len() > 0 {
                        let top = stack[stack.len() - 1];
                        trim(&mut path, &mut calls, top);
                    }
                },
            }
        }
        fuel -= 1;
    }
    if repeated.len() == 0 {
        None
    } else {
        Some(repeated)
    }
}

/// What the detector finds in the function at place `f` of the lifter
/// `g`: the name of the function and in round brackets the functions that
/// it calls twice alike, with commas between them. A native function and
/// a function without a control-flow graph yield nothing.
pub open spec fn repeated_finding(g: &StacklessBytecodeGenerator, f: int) -> Option<Seq<char>> {
    let function = &g.functions@[f];
    if g.module.function_defs@[f].spec_is_native() {
        None
    } else {
        match function.cfg {
            Some(cfg) => {
                let funs = repeated_calls(function, &cfg);
                let names = fun_names(g.symbol_pool@, funs, funs.len());
                crate::scanner::detects::common::when(
                    funs.len() > 0,
                    function.name@ + "("@ + joined(names, ","@, names.len()) + ")"@,
                )
            },
            None => None,
        }
    }
}

/// The findings of the first `n` functions of the lifter, in order.
pub open spec fn repeated_findings(g: &StacklessBytecodeGenerator, n: nat) -> Seq<Seq<char>>
    decreases n,
{
    if n == 0 {
        Seq::empty()
    } else {
        match repeated_finding(g, n - 1) {
            Some(s) => repeated_findings(g, (n - 1) as nat).push(s),
            None => repeated_findings(g, (n - 1) as nat),
        }
    }
}

/// `result` holds, for each module of the package in order, its name and
/// what the detector finds in it.
pub open spec fn is_repeated_result(result: Seq<(String, Vec<String>)>, p: &Packages) -> bool {
    &&& result.len() == p.packages@.len()
    &&& forall|m: int|
        0 <= m < result.len() ==> (#[trigger] result[m]).0 == p.packages@[m].0 && texts(
            result[m].1@,
        ) == repeated_findings(&p.packages@[m].1, p.packages@[m].1.functions@.len())
}

/// What the detector finds in the function at place `f`.
pub fn find_repeated_in_function(g: &StacklessBytecodeGenerator, f: usize) -> (r: Option<String>)
    requires
        ready(g),
        f < g.functions@.len(),
    ensures
        match repeated_finding(g, f as int) {
            Some(s) => r matches Some(x) && x@ == s,
            None => r is None,
        },
{
    if is_native(f, g) {
        return None;
    }
    let function = &g.functions[f];
    match detect_repeated_function_call(function) {
        Some(funs) => {
            let names = names_of(g, &funs);
            let mut res = function.name.clone();
            res.append("(");
            res.append(join(&names, ",").as_str());
            res.append(")");
            Some(res)
        },
        None => None,
    }
}

/// What the detector finds in the functions of the module, in order.
#[verifier::loop_isolation(false)]
pub fn find_repeated_in_module(g: &StacklessBytecodeGenerator) -> (r: Vec<String>)
    requires
        ready(g),
    ensures
        texts(r@) == repeated_findings(g, g.functions@.len()),
{
    let mut out: Vec<String> = Vec::new();
    let mut f: usize = 0;
    assert(texts(out@) =~= repeated_findings(g, 0));
    while f < g.functions.len()
        invariant
            f <= g.functions.len(),
            texts(out@) == repeated_findings(g, f as nat),
        decreases g.functions.len() - f,
    {
        let ghost before = texts(out@);
        match find_repeated_in_function(g, f) {
            Some(res) => {
                out.push(res);
                assert(texts(out@) =~= before.push(res@));
            },
            None => {},
        }
        f += 1;
    }
    out
}

/// The detector of functions that call a function twice alike. Its
/// findings stand apart from those of the detectors that a report
/// lists.
pub struct Detector10<'a> {
    pub packages: &'a Packages<'a>,
    pub result: Vec<(String, Vec<String>)>,
}

impl<'a> Detector10<'a> {
    /// A detector for `packages` that has not run yet.
    pub fn new(packages: &'a Packages<'a>) -> (r: Self)
        ensures
            r.packages == packages,
            r.result@.len() == 0,
    {
        Self { packages, result: Vec::new() }
    }

    /// Looks at every module of the package and records, for each module
    /// in order, what it finds.
    #[verifier::loop_isolation(false)]
    pub fn run(&mut self) -> (r: &Vec<(String, Vec<String>)>)
        requires
            all_ready(old(self).packages),
        ensures
            final(self).packages == old(self).packages,
            r == final(self).result,
            is_repeated_result(r@, old(self).packages),
    {
        let packages = self.packages;
        let mut result: Vec<(String, Vec<String>)> = Vec::new();
        let mut m: usize = 0;
        while m < packages.packages.len()
            invariant
                m <= packages.packages.len(),
                result@.len() == m,
                forall|x: int|
                    0 <= x < m ==> (#[trigger] result@[x]).0 == packages.packages@[x].0 && texts(
                        result@[x].1@,
                    ) == repeated_findings(
                        &packages.packages@[x].1,
                        packages.packages@[x].1.functions@.len(),
                    ),
            decreases packages.packages.len() - m,
        {
            assert(ready(&packages.packages@[m as int].1));
            let found = find_repeated_in_module(&packages.packages[m].1);
            result.push((packages.packages[m].0.clone(), found));
            m += 1;
        }
        self.result = result;
        &self.result
    }
}

} // verus!
