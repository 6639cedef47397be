use vstd::prelude::*;
use crate::move_ir::bytecode::code_view;
use crate::move_ir::call_graph::{graph_out, graph_weights};
use crate::move_ir::generate_bytecode::StacklessBytecodeGenerator;
use crate::move_ir::build_graphs::lemma_call_out_len;
use crate::move_ir::file_format::CompiledModule;
use crate::move_ir::packages::{holds_module, is_lifted, placed, Packages};
use crate::move_ir::types::{text_in, types_view, FunId};
use crate::move_ir::utils::is_native;
use crate::scanner::detects::detect1::{detect_unchecked_return, unchecked_finding, unchecked_names};
use crate::scanner::detects::detect2::{detect_overflow, has_overflow};
use crate::scanner::detects::detect3::{detect_precision_loss, has_precision_loss};
use crate::scanner::detects::detect4::{detect_infinite_loop, loops_forever};
use crate::scanner::detects::detect5::{detect_unused_constants, unused_constants};
use crate::scanner::detects::detect6::{detect_unused_private_functions, unused_private_functions};
use crate::scanner::detects::detect7::{detect_unnecessary_type_conversion, has_needless_cast};
use crate::scanner::detects::detect8::{detect_unnecessary_bool_judgment, has_needless_judgment};
use crate::scanner::detects::detect9::{cycle_text, detect_recursive_function_call, recursive_calls};
use crate::scanner::result::DetectKind;
use crate::utils::strings::texts;

verus! {

/// `f` holds of some number below `n`.
pub open spec fn any_below(n: nat, f: spec_fn(int) -> bool) -> bool
    decreases n,
{
    n > 0 && (any_below((n - 1) as nat, f) || f(n - 1))
}

/// What holds of some number below `n` holds of some number below any
/// larger one.
pub proof fn lemma_any_below_more(n: nat, m: nat, f: spec_fn(int) -> bool)
    requires
        n <= m,
        any_below(n, f),
    ensures
        any_below(m, f),
    decreases m,
{
    if n < m {
        lemma_any_below_more(n, (m - 1) as nat, f);
    }
}

/// `f` holds of some number below `n` exactly if there is such a number.
pub proof fn lemma_any_below_exists(n: nat, f: spec_fn(int) -> bool)
    ensures
        any_below(n, f) <==> exists|k: int| 0 <= k < n && #[trigger] f(k),
    decreases n,
{
    if n > 0 {
        lemma_any_below_exists((n - 1) as nat, f);
        if any_below(n, f) {
            if f(n - 1) {
                assert(0 <= n - 1 < n && f(n - 1));
            } else {
                let k = choose|k: int| 0 <= k < n - 1 && #[trigger] f(k);
                assert(0 <= k < n && f(k));
            }
        }
        if exists|k: int| 0 <= k < n && #[trigger] f(k) {
            let k = choose|k: int| 0 <= k < n && #[trigger] f(k);
            if k < n - 1 {
                assert(0 <= k < n - 1 && f(k));
            }
        }
    }
}

/// The texts among the first `n` of `items` that are there, in order.
pub open spec fn collected(items: Seq<Option<Seq<char>>>, n: nat) -> Seq<Seq<char>>
    decreases n,
{
    if n == 0 {
        Seq::empty()
    } else {
        match items[n - 1] {
            Some(s) => collected(items, (n - 1) as nat).push(s),
            None => collected(items, (n - 1) as nat),
        }
    }
}

/// The lifter is ready for the detectors: it is in good order, every
/// function of its module is lifted and has its table of dependency
/// trees, and its call graph has a node for each function handle.
pub open spec fn ready(g: &StacklessBytecodeGenerator) -> bool {
    &&& g.wf()
    &&& g.lifted_all()
    &&& g.data_dependency@.len() == g.functions@.len()
    &&& graph_out(g.call_graph).len() == g.module.function_handles@.len()
}

/// Every module of the package is ready for the detectors.
pub open spec fn all_ready(p: &Packages) -> bool {
    forall|m: int| 0 <= m < p.packages@.len() ==> ready(&(#[trigger] p.packages@[m]).1)
}

/// The names of the first `k` of `funs`.
pub open spec fn fun_names(pool: Seq<Seq<char>>, funs: Seq<FunId>, k: nat) -> Seq<Seq<char>>
    decreases k,
{
    if k == 0 {
        Seq::empty()
    } else {
        fun_names(pool, funs, (k - 1) as nat).push(text_in(pool, funs[k - 1].0))
    }
}

/// `name` if `flag` holds.
pub open spec fn when(flag: bool, name: Seq<char>) -> Option<Seq<char>> {
    if flag {
        Some(name)
    } else {
        None
    }
}

/// What the detector of kind `kind` finds in the function at place `f` of
/// the lifter `g`. A native function yields nothing.
pub open spec fn function_finding(kind: DetectKind, g: &StacklessBytecodeGenerator, f: int) -> Option<
    Seq<char>,
> {
    let function = &g.functions@[f];
    let name = g.spec_function_name(f);
    let code = code_view(function.code@);
    let types = types_view(function.local_types@);
    if g.module.function_defs@[f].spec_is_native() {
        None
    } else {
        match kind {
            DetectKind::UncheckedReturn => unchecked_finding(
                name,
                unchecked_names(code, g.symbol_pool@, code.len()),
            ),
            DetectKind::Overflow => when(has_overflow(g.data_dependency@[f]@, types, code), name),
            DetectKind::PrecisionLoss => when(has_precision_loss(function, g.symbol_pool@), name),
            DetectKind::InfiniteLoop => when(loops_forever(function, g.data_dependency@[f]@), name),
            DetectKind::UnnecessaryTypeConversion => when(has_needless_cast(function), name),
            DetectKind::UnnecessaryBoolJudgment => when(has_needless_judgment(function), name),
            _ => None,
        }
    }
}

/// The findings of the first `n` functions of the lifter, in order.
pub open spec fn function_findings(kind: DetectKind, g: &StacklessBytecodeGenerator, n: nat) -> Seq<
    Seq<char>,
>
    decreases n,
{
    if n == 0 {
        Seq::empty()
    } else {
        match function_finding(kind, g, n - 1) {
            Some(s) => function_findings(kind, g, (n - 1) as nat).push(s),
            None => function_findings(kind, g, (n - 1) as nat),
        }
    }
}

/// The first `k` of the cycles as the detector reports them.
pub open spec fn cycle_texts(
    pool: Seq<Seq<char>>,
    weights: Seq<(usize, usize)>,
    cycles: Seq<Seq<usize>>,
) -> Seq<Seq<char>> {
    Seq::new(cycles.len(), |i: int| cycle_text(pool, weights, cycles[i]))
}

/// What the detector of kind `kind` finds in the module of the lifter
/// `g`.
pub open spec fn module_findings(kind: DetectKind, g: &StacklessBytecodeGenerator) -> Seq<Seq<char>> {
    match kind {
        DetectKind::UnusedConstant => unused_constants(g.module),
        DetectKind::UnusedPrivateFunctions => unused_private_functions(g),
        DetectKind::RecursiveFunctionCall => match recursive_calls(
            graph_out(g.call_graph),
            crate::move_ir::build_graphs::key_order(g.ctx(), g.symbol_pool@.len()),
        ) {
            Some(cycles) => cycle_texts(g.symbol_pool@, graph_weights(g.call_graph), cycles),
            None => Seq::empty(),
        },
        _ => function_findings(kind, g, g.functions@.len()),
    }
}

/// The names of the functions `funs`.
#[verifier::loop_isolation(false)]
pub fn names_of(g: &StacklessBytecodeGenerator, funs: &Vec<FunId>) -> (r: Vec<String>)
    ensures
        texts(r@) == fun_names(g.symbol_pool@, funs@, funs@.len()),
{
    let mut out: Vec<String> = Vec::new();
    let mut k: usize = 0;
    assert(texts(out@) =~= fun_names(g.symbol_pool@, funs@, 0));
    while k < funs.len()
        invariant
            k <= funs.len(),
            texts(out@) == fun_names(g.symbol_pool@, funs@, k as nat),
        decreases funs.len() - k,
    {
        let ghost before = texts(out@);
        let name = g.symbol_pool.text(funs[k].symbol());
        out.push(name);
        assert(texts(out@) =~= before.push(name@));
        k += 1;
    }
    out
}

/// What the detector of kind `kind` finds in the function at place `f`.
pub fn find_in_function(kind: DetectKind, g: &StacklessBytecodeGenerator, f: usize) -> (r: Option<
    String,
>)
    requires
        ready(g),
        f < g.functions@.len(),
    ensures
        match function_finding(kind, g, f as int) {
            Some(s) => r matches Some(x) && x@ == s,
            None => r is None,
        },
{
    if is_native(f, g) {
        return None;
    }
    let function = &g.functions[f];
    match kind {
        DetectKind::UncheckedReturn => detect_unchecked_return(function, &g.symbol_pool, f, g),
        DetectKind::Overflow => detect_overflow(g, f),
        DetectKind::PrecisionLoss => detect_precision_loss(function, g, f),
        DetectKind::InfiniteLoop => detect_infinite_loop(g, f),
        DetectKind::UnnecessaryTypeConversion => detect_unnecessary_type_conversion(function, g, f),
        DetectKind::UnnecessaryBoolJudgment => detect_unnecessary_bool_judgment(function, g, f),
        _ => None,
    }
}

/// What the detector of kind `kind` finds in the module of the lifter
/// `g`.
#[verifier::loop_isolation(false)]
pub fn find_in_module(kind: DetectKind, g: &StacklessBytecodeGenerator) -> (r: Vec<String>)
    requires
        ready(g),
    ensures
        texts(r@) == module_findings(kind, g),
{
    match kind {
        DetectKind::UnusedConstant => detect_unused_constants(g),
        DetectKind::UnusedPrivateFunctions => detect_unused_private_functions(g),
        DetectKind::RecursiveFunctionCall => {
            match detect_recursive_function_call(g) {
                Some(v) => {
                    assert(texts(v@) =~= module_findings(kind, g));
                    v
                },
                None => {
                    let none: Vec<String> = Vec::new();
                    assert(texts(none@) =~= module_findings(kind, g));
                    none
                },
            }
        },
        _ => {
            let mut out: Vec<String> = Vec::new();
            let mut f: usize = 0;
            assert(texts(out@) =~= function_findings(kind, g, 0));
            while f < g.functions.len()
                invariant
                    f <= g.functions.len(),
                    texts(out@) == function_findings(kind, g, f as nat),
                decreases g.functions.len() - f,
            {
                let ghost before = texts(out@);
                match find_in_function(kind, g, f) {
                    Some(res) => {
                        out.push(res);
                        assert(texts(out@) =~= before.push(res@));
                    },
                    None => {},
                }
                f += 1;
            }
            out
        },
    }
}

/// The entry holds the name of the module at place `m` and what the
/// detector of kind `kind` finds in it.
pub open spec fn is_finding_of(
    entry: (String, Vec<String>),
    kind: DetectKind,
    p: &Packages,
    m: int,
) -> bool {
    entry.0 == p.packages@[m].0 && texts(entry.1@) == module_findings(kind, &p.packages@[m].1)
}

/// `result` holds, for each module of the package in order, what the
/// detector of kind `kind` finds in it.
pub open spec fn is_result_of(result: Seq<(String, Vec<String>)>, kind: DetectKind, p: &Packages) -> bool {
    &&& result.len() == p.packages@.len()
    &&& forall|m: int| 0 <= m < result.len() ==> is_finding_of(#[trigger] result[m], kind, p, m)
}

/// Runs the detector of kind `kind` over every module of the package.
#[verifier::loop_isolation(false)]
pub fn run_detector(kind: DetectKind, packages: &Packages) -> (r: Vec<(String, Vec<String>)>)
    requires
        all_ready(packages),
    ensures
        is_result_of(r@, kind, packages),
{
    let mut result: Vec<(String, Vec<String>)> = Vec::new();
    let mut m: usize = 0;
    while m < packages.packages.len()
        invariant
            m <= packages.packages.len(),
            result@.len() == m,
            forall|x: int| 0 <= x < m ==> is_finding_of(#[trigger] result@[x], kind, packages, x),
        decreases packages.packages.len() - m,
    {
        assert(ready(&packages.packages@[m as int].1));
        let found = find_in_module(kind, &packages.packages[m].1);
        result.push((packages.packages[m].0.clone(), found));
        m += 1;
    }
    result
}

/// A package that was lifted from modules and analysed is ready for the
/// detectors.
pub proof fn lemma_built_is_ready(p: &Packages, cms: Seq<CompiledModule>)
    requires
        p.wf(),
        p.lifted_from(cms, cms.len()),
        p.analysed(),
    ensures
        all_ready(p),
        p.names().no_duplicates(),
{
    p.lemma_names_distinct(cms);
    let places = placed(cms, cms.len());
    assert forall|m: int| 0 <= m < p.packages@.len() implies ready(
        &(#[trigger] p.packages@[m]).1,
    ) by {
        let g = &p.packages@[m].1;
        assert(holds_module(p.packages@[m], cms, places[m], cms.len()));
        reveal(is_lifted);
        lemma_call_out_len(
            g.ctx(),
            g.functions@,
            crate::move_ir::build_graphs::key_order(g.ctx(), g.symbol_pool@.len()),
            g.module.function_defs@.len(),
        );
    }
}

/// The detectors that look at one function at a time find nothing in a
/// native function, whatever their kind, and once its module is lifted
/// the function has no code and no control-flow graph.
pub proof fn lemma_native_skipped(
    g: &StacklessBytecodeGenerator,
    cm: &CompiledModule,
    f: int,
    kind: DetectKind,
)
    requires
        is_lifted(g, cm),
        0 <= f < g.functions@.len(),
        f < g.module.function_defs@.len(),
        g.module.function_defs@[f].spec_is_native(),
    ensures
        function_finding(kind, g, f) is None,
        crate::scanner::detects::detect10::repeated_finding(g, f) is None,
        g.functions@[f].cfg is None,
        g.functions@[f].code@.len() == 0,
{
    reveal(is_lifted);
    let l = crate::move_ir::generate_bytecode::lift_function(
        crate::move_ir::generate_bytecode::lift_ctx_of(cm),
        f,
    )->0;
    assert(g.functions@[f].lifted_code(l));
    assert(l.code.len() == 0);
    assert(code_view(g.functions@[f].code@).len() == g.functions@[f].code@.len());
}

/// In a module whose call graph has no cycle the detector of recursive
/// calls finds nothing.
pub proof fn lemma_acyclic_no_findings(g: &StacklessBytecodeGenerator)
    requires
        !crate::move_ir::call_graph::has_cycle(graph_out(g.call_graph)),
    ensures
        module_findings(DetectKind::RecursiveFunctionCall, g) == Seq::<Seq<char>>::empty(),
{
}

} // verus!
