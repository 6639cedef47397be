use vstd::prelude::*;
use vstd::string::StringExecFns;
use crate::move_ir::bytecode::{code_view, Bytecode, BytecodeV, Operation, OperationV};
use crate::move_ir::generate_bytecode::{FunctionInfo, StacklessBytecodeGenerator};
use crate::move_ir::types::{text_in, FunId, SymbolPool};
use crate::move_ir::utils::get_function_name;
use crate::utils::strings::{join, joined, sort_dedup, sorted_names, texts};

verus! {

/// The instruction destroys one of the temps `dsts` and nothing else.
pub open spec fn destroys(bc: BytecodeV, dsts: Seq<usize>) -> bool {
    bc matches BytecodeV::Call(_, ds, OperationV::Destroy, ss, _) && ds.len() == 0 && ss.len() == 1
        && dsts.contains(ss[0])
}

/// One of the `j` instructions behind offset `k` destroys one of `dsts`.
pub open spec fn destroyed_within(code: Seq<BytecodeV>, k: int, dsts: Seq<usize>, j: nat) -> bool
    decreases j,
{
    if j == 0 {
        false
    } else {
        destroyed_within(code, k, dsts, (j - 1) as nat) || (k + j < code.len() && destroys(
            code[k + j],
            dsts,
        ))
    }
}

/// The function whose results the call at offset `k` throws away: the
/// call has results, and one of as many instructions behind it as it has
/// results destroys one of them.
pub open spec fn unchecked_at(code: Seq<BytecodeV>, k: int) -> Option<FunId> {
    match code[k] {
        BytecodeV::Call(_, dsts, OperationV::Function(_, fid, _), _, _) => if dsts.len() > 0
            && destroyed_within(code, k, dsts, dsts.len()) {
            Some(fid)
        } else {
            None
        },
        _ => None,
    }
}

/// The names of the functions whose results the first `n` instructions
/// throw away, one for each such call, in the order of the calls.
pub open spec fn unchecked_names(code: Seq<BytecodeV>, pool: Seq<Seq<char>>, n: nat) -> Seq<
    Seq<char>,
>
    decreases n,
{
    if n == 0 {
        Seq::empty()
    } else {
        let prev = unchecked_names(code, pool, (n - 1) as nat);
        match unchecked_at(code, n - 1) {
            Some(fid) => prev.push(text_in(pool, fid.0)),
            None => prev,
        }
    }
}

/// The finding for a function called `name` that throws away the results
/// of the functions `callees`: the name, and in brackets the callees in
/// ascending order, each once, with commas between them. None where
/// there is no such callee.
pub open spec fn unchecked_finding(name: Seq<char>, callees: Seq<Seq<char>>) -> Option<Seq<char>> {
    if callees.len() == 0 {
        None
    } else {
        let sorted = sorted_names(callees, callees.len());
        Some(name + "("@ + joined(sorted, ","@, sorted.len()) + ")"@)
    }
}

#[verifier::loop_isolation(false)]
fn destroys_exec(bc: &Bytecode, dsts: &Vec<usize>) -> (r: bool)
    ensures
        r == destroys(bc@, dsts@),
{
    match bc {
        Bytecode::Call(_, ds, op, ss, _) => match op {
            Operation::Destroy => {
                if ds.len() == 0 && ss.len() == 1 {
                    let d = ss[0];
                    let mut i: usize = 0;
                    while i < dsts.len()
                        invariant
                            i <= dsts.len(),
                            forall|j: int| 0 <= j < i ==> dsts@[j] != d,
                        decreases dsts.len() - i,
                    {
                        if dsts[i] == d {
                            return true;
                        }
                        i += 1;
                    }
                    false
                } else {
                    false
                }
            },
            _ => false,
        },
        _ => false,
    }
}

#[verifier::loop_isolation(false)]
fn unchecked_at_exec(code: &Vec<Bytecode>, k: usize) -> (r: Option<FunId>)
    requires
        k < code@.len(),
    ensures
        r == unchecked_at(code_view(code@), k as int),
{
    let ghost cv = code_view(code@);
    assert(cv[k as int] == code@[k as int]@);
    match &code[k] {
        Bytecode::Call(_, dsts, op, _, _) => match op {
            Operation::Function(_, fid, _) => {
                let ret_cnt = dsts.len();
                let mut j: usize = 0;
                while j < ret_cnt && j < code.len() - 1 - k
                    invariant
                        j <= ret_cnt,
                        k < code@.len(),
                        cv == code_view(code@),
                        ret_cnt == dsts@.len(),
                        !destroyed_within(cv, k as int, dsts@, j as nat),
                    decreases ret_cnt - j,
                {
                    assert(cv[k + j + 1] == code@[k + j + 1]@);
                    if destroys_exec(&code[k + j + 1], dsts) {
                        proof {
                            lemma_destroyed_more(cv, k as int, dsts@, (j + 1) as nat, ret_cnt as nat);
                        }
                        return Some(*fid);
                    }
                    j += 1;
                }
                proof {
                    lemma_destroyed_beyond(cv, k as int, dsts@, j as nat, ret_cnt as nat);
                }
                None
            },
            _ => None,
        },
        _ => None,
    }
}

/// What is destroyed within `j` instructions is destroyed within more.
proof fn lemma_destroyed_more(code: Seq<BytecodeV>, k: int, dsts: Seq<usize>, j: nat, n: nat)
    requires
        j <= n,
        destroyed_within(code, k, dsts, j),
    ensures
        destroyed_within(code, k, dsts, n),
    decreases n,
{
    if j < n {
        lemma_destroyed_more(code, k, dsts, j, (n - 1) as nat);
    }
}

/// Behind the end of the code nothing is destroyed.
proof fn lemma_destroyed_beyond(code: Seq<BytecodeV>, k: int, dsts: Seq<usize>, j: nat, n: nat)
    requires
        j <= n,
        !destroyed_within(code, k, dsts, j),
        j == n || k + j + 1 >= code.len(),
    ensures
        !destroyed_within(code, k, dsts, n),
    decreases n,
{
    if j < n {
        lemma_destroyed_beyond(code, k, dsts, j, (n - 1) as nat);
    }
}

/// The finding of the detector of unchecked returns for the function at
/// place `idx`: its name with the functions whose results it throws
/// away.
pub fn detect_unchecked_return(
    function: &FunctionInfo,
    symbol_pool: &SymbolPool,
    idx: usize,
    stbgr: &StacklessBytecodeGenerator,
) -> (r: Option<String>)
    requires
        stbgr.wf(),
        idx < stbgr.module.function_defs@.len(),
    ensures
        match unchecked_finding(
            stbgr.spec_function_name(idx as int),
            unchecked_names(code_view(function.code@), symbol_pool@, function.code@.len()),
        ) {
            Some(s) => r matches Some(x) && x@ == s,
            None => r is None,
        },
{
    let ghost cv = code_view(function.code@);
    let mut names: Vec<String> = Vec::new();
    let mut k: usize = 0;
    assert(texts(names@) =~= unchecked_names(cv, symbol_pool@, 0));
    while k < function.code.len()
        invariant
            k <= function.code.len(),
            cv == code_view(function.code@),
            texts(names@) == unchecked_names(cv, symbol_pool@, k as nat),
        decreases function.code.len() - k,
    {
        let ghost before = texts(names@);
        match unchecked_at_exec(&function.code, k) {
            Some(fid) => {
                names.push(symbol_pool.text(fid.symbol()));
                assert(texts(names@) =~= before.push(text_in(symbol_pool@, fid.0)));
            },
            None => {},
        }
        k += 1;
    }
    if names.len() == 0 {
        None
    } else {
        let sorted = sort_dedup(&names);
        let mut res = get_function_name(idx, stbgr);
        res.append("(");
        res.append(join(&sorted, ",").as_str());
        res.append(")");
        Some(res)
    }
}

/// The detector of unchecked returns.
pub struct Detector1<'a> {
    pub packages: &'a crate::move_ir::packages::Packages<'a>,
    pub content: crate::scanner::result::DetectContent,
}

impl<'a> crate::scanner::detectors::AbstractDetector<'a> for Detector1<'a> {
    open spec fn package(&self) -> &'a crate::move_ir::packages::Packages<'a> {
        self.packages
    }

    open spec fn found(&self) -> &crate::scanner::result::DetectContent {
        &self.content
    }

    open spec fn class() -> crate::scanner::result::DetectKind {
        crate::scanner::result::DetectKind::UncheckedReturn
    }

    fn new(packages: &'a crate::move_ir::packages::Packages<'a>) -> (r: Self) {
        Self {
            packages,
            content: crate::scanner::result::DetectContent::new(
                crate::scanner::result::Severity::Minor,
                crate::scanner::result::DetectKind::UncheckedReturn,
            ),
        }
    }

    fn run(&mut self) -> (r: &crate::scanner::result::DetectContent) {
        self.content.result = crate::scanner::detects::common::run_detector(
            crate::scanner::result::DetectKind::UncheckedReturn,
            self.packages,
        );
        &self.content
    }
}

/// A call that yields nothing is never reported, whatever stands behind
/// it.
pub proof fn lemma_no_results_unchecked(code: Seq<BytecodeV>, k: int)
    requires
        code[k] matches BytecodeV::Call(_, dsts, _, _, _) && dsts.len() == 0,
    ensures
        unchecked_at(code, k) is None,
{
}

} // verus!
