use vstd::prelude::*;
use vstd::string::StrSliceExecFns;
use crate::move_ir::build_graphs::{keyed_node, lemma_keyed_node_below, lemma_keyed_node_names};
use crate::move_ir::call_graph::{count_of, graph_out, node_count, predecessors};
use crate::move_ir::file_format::Visibility;
use crate::move_ir::generate_bytecode::StacklessBytecodeGenerator;
use crate::utils::strings::texts;

verus! {

/// Some node of the graph has an edge to the node `h`.
pub open spec fn has_caller(out: Seq<Seq<usize>>, h: usize) -> bool {
    exists|s: int| 0 <= s < out.len() && (#[trigger] out[s]).contains(h)
}

/// The handles `a` and `b` name the same function: the same name in the
/// same module.
pub open spec fn same_function(g: &StacklessBytecodeGenerator, a: int, b: int) -> bool {
    &&& g.module.function_handles@[a].module == g.module.function_handles@[b].module
    &&& g.ident_symbols@[g.module.function_handles@[a].name as int].0
        == g.ident_symbols@[g.module.function_handles@[b].name as int].0
}

/// The definition at place `d` defines the function that the handle `h`
/// names, as private and not as an entry point.
pub open spec fn defines_private(g: &StacklessBytecodeGenerator, h: int, d: int) -> bool {
    let def = g.module.function_defs@[d];
    same_function(g, def.function as int, h) && def.visibility == Visibility::Private
        && !def.is_entry
}

/// One of the first `n` definitions of the module defines the function
/// that the handle `h` names, as private and not as an entry point.
pub open spec fn privately_defined(g: &StacklessBytecodeGenerator, h: int, n: nat) -> bool
    decreases n,
{
    n > 0 && (defines_private(g, h, n - 1) || privately_defined(g, h, (n - 1) as nat))
}

/// The text begins with `init`.
pub open spec fn starts_with_init(name: Seq<char>) -> bool {
    name.len() >= 4 && name[0] == 'i' && name[1] == 'n' && name[2] == 'i' && name[3] == 't'
}

/// The handle `h` names a function of the lifted module itself, not one
/// that the module imports.
pub open spec fn is_own(g: &StacklessBytecodeGenerator, h: int) -> bool {
    g.module.function_handles@[h].module == g.module.self_module_handle_idx
}

/// The name of the function that the handle `h` names, where the detector
/// reports it: the handle names a function of the module itself, no
/// function of the module calls it, and the module defines it as private,
/// not as an entry point, and under a name that does not begin with
/// `init`.
pub open spec fn unused_private(g: &StacklessBytecodeGenerator, h: int) -> Option<Seq<char>> {
    let name = g.module.identifiers@[g.module.function_handles@[h].name as int]@;
    if is_own(g, h) && privately_defined(g, h, g.module.function_defs@.len()) && !has_caller(
        graph_out(g.call_graph),
        h as usize,
    ) && !starts_with_init(name) {
        Some(name)
    } else {
        None
    }
}

/// What the detector reports of the function with the name `s` in the
/// module `m`.
pub open spec fn unused_keyed(g: &StacklessBytecodeGenerator, m: int, s: int) -> Option<Seq<char>> {
    match keyed_node(g.ctx(), m, s, g.module.function_handles@.len()) {
        Some(h) => unused_private(g, h),
        None => None,
    }
}

/// What the detector reports of the functions of the module `m` with the
/// first `k` names of the pool, in the order of the names.
pub open spec fn unused_by_symbol(g: &StacklessBytecodeGenerator, m: int, k: nat) -> Seq<Seq<char>>
    decreases k,
{
    if k == 0 {
        Seq::empty()
    } else {
        match unused_keyed(g, m, k - 1) {
            Some(name) => unused_by_symbol(g, m, (k - 1) as nat).push(name),
            None => unused_by_symbol(g, m, (k - 1) as nat),
        }
    }
}

/// What the detector reports of the functions of the first `k` modules
/// that the module names.
pub open spec fn unused_by_module(g: &StacklessBytecodeGenerator, k: nat) -> Seq<Seq<char>>
    decreases k,
{
    if k == 0 {
        Seq::empty()
    } else {
        unused_by_module(g, (k - 1) as nat) + unused_by_symbol(g, k - 1, g.symbol_pool@.len())
    }
}

/// The private functions of the module that nothing calls, in the order
/// of the modules that their handles name and, within one module, of the
/// places of their names in the pool.
pub open spec fn unused_private_functions(g: &StacklessBytecodeGenerator) -> Seq<Seq<char>> {
    unused_by_module(g, g.module.module_handles@.len())
}

/// What is reported of the first names of a module is reported of more.
pub proof fn lemma_by_symbol_keeps(
    g: &StacklessBytecodeGenerator,
    m: int,
    k: nat,
    n: nat,
    name: Seq<char>,
)
    requires
        k <= n,
        unused_by_symbol(g, m, k).contains(name),
    ensures
        unused_by_symbol(g, m, n).contains(name),
    decreases n,
{
    if k < n {
        lemma_by_symbol_keeps(g, m, k, (n - 1) as nat, name);
        let prev = unused_by_symbol(g, m, (n - 1) as nat);
        let i = choose|i: int| 0 <= i < prev.len() && prev[i] == name;
        match unused_keyed(g, m, n - 1) {
            Some(x) => {
                assert(prev.push(x)[i] == name);
            },
            None => {},
        }
    }
}

/// What is reported of the first modules is reported of more.
pub proof fn lemma_by_module_keeps(g: &StacklessBytecodeGenerator, k: nat, n: nat, name: Seq<char>)
    requires
        k <= n,
        unused_by_module(g, k).contains(name),
    ensures
        unused_by_module(g, n).contains(name),
    decreases n,
{
    if k < n {
        lemma_by_module_keeps(g, k, (n - 1) as nat, name);
        let prev = unused_by_module(g, (n - 1) as nat);
        let i = choose|i: int| 0 <= i < prev.len() && prev[i] == name;
        assert((prev + unused_by_symbol(g, n - 1, g.symbol_pool@.len()))[i] == name);
    }
}

/// A definition that defines a function as private and not as an entry
/// point is among any number of definitions that reaches it.
pub proof fn lemma_privately_defined(g: &StacklessBytecodeGenerator, h: int, d: int, n: nat)
    requires
        0 <= d < n,
        defines_private(g, h, d),
    ensures
        privately_defined(g, h, n),
    decreases n,
{
    if d < n - 1 {
        lemma_privately_defined(g, h, d, (n - 1) as nat);
    }
}

/// Where one of the first `n` handles names the function with the name
/// `s` in the module `m`, one of them stands for it.
pub proof fn lemma_keyed_exists(g: &StacklessBytecodeGenerator, m: int, s: int, n: nat, h: int)
    requires
        0 <= h < n,
        g.module.function_handles@[h].module == m,
        g.ident_symbols@[g.module.function_handles@[h].name as int].0 == s,
    ensures
        keyed_node(g.ctx(), m, s, n) is Some,
    decreases n,
{
    if h < n - 1 {
        lemma_keyed_exists(g, m, s, (n - 1) as nat, h);
    }
}

/// A private function that nothing calls is reported: where the
/// definition at place `d` defines a function of the module itself as
/// private, not as an entry point and under a name that does not begin
/// with `init`, and no function calls it under any of the handles that
/// name it, the detector reports its name.
pub proof fn lemma_unused_private_reported(g: &StacklessBytecodeGenerator, d: int)
    requires
        g.wf(),
        0 <= d < g.module.function_defs@.len(),
        is_own(g, g.module.function_defs@[d].function as int),
        g.module.function_defs@[d].visibility == Visibility::Private,
        !g.module.function_defs@[d].is_entry,
        !starts_with_init(
            g.module.identifiers@[g.module.function_handles@[g.module.function_defs@[d].function as int].name as int]@,
        ),
        forall|x: int|
            0 <= x < g.module.function_handles@.len() && same_function(
                g,
                x,
                g.module.function_defs@[d].function as int,
            ) ==> !has_caller(graph_out(g.call_graph), x as usize),
    ensures
        unused_private_functions(g).contains(
            g.module.identifiers@[g.module.function_handles@[g.module.function_defs@[d].function as int].name as int]@,
        ),
{
    let handles = g.module.function_handles@;
    let h0 = g.module.function_defs@[d].function as int;
    assert(g.module.function_def_ok(d));
    assert(g.module.function_handle_ok(h0));
    let m = handles[h0].module as int;
    let s = g.ident_symbols@[handles[h0].name as int].0 as int;
    let name = g.module.identifiers@[handles[h0].name as int]@;
    assert(g.holds(g.ident_symbols@[handles[h0].name as int], name));
    lemma_keyed_exists(g, m, s, handles.len(), h0);
    lemma_keyed_node_below(g.ctx(), m, s, handles.len());
    lemma_keyed_node_names(g.ctx(), m, s, handles.len());
    let h = keyed_node(g.ctx(), m, s, handles.len())->0;
    assert(g.module.function_handle_ok(h));
    assert(g.holds(
        g.ident_symbols@[handles[h].name as int],
        g.module.identifiers@[handles[h].name as int]@,
    ));
    assert(same_function(g, h, h0));
    assert(defines_private(g, h, d));
    lemma_privately_defined(g, h, d, g.module.function_defs@.len());
    assert(unused_private(g, h) == Some(name));
    assert(unused_keyed(g, m, s) == Some(name));
    let first = unused_by_symbol(g, m, s as nat);
    assert(unused_by_symbol(g, m, (s + 1) as nat) == first.push(name));
    assert(first.push(name)[first.len() as int] == name);
    lemma_by_symbol_keeps(g, m, (s + 1) as nat, g.symbol_pool@.len(), name);
    let before = unused_by_module(g, m as nat);
    let here = unused_by_symbol(g, m, g.symbol_pool@.len());
    let i = choose|i: int| 0 <= i < here.len() && here[i] == name;
    assert((before + here)[before.len() + i] == name);
    lemma_by_module_keeps(g, (m + 1) as nat, g.module.module_handles@.len(), name);
}

/// What the detector reports of some names of a module is the name of a
/// function of the module itself that is private, no entry point, not
/// named `init...`, and called by nothing.
pub proof fn lemma_by_symbol_sound(g: &StacklessBytecodeGenerator, m: int, k: nat, name: Seq<char>)
    requires
        unused_by_symbol(g, m, k).contains(name),
    ensures
        exists|h: int| #[trigger] unused_private(g, h) == Some(name),
    decreases k,
{
    if k > 0 {
        let prev = unused_by_symbol(g, m, (k - 1) as nat);
        if !prev.contains(name) {
            let i = choose|i: int|
                0 <= i < unused_by_symbol(g, m, k).len() && unused_by_symbol(g, m, k)[i] == name;
            let h = keyed_node(g.ctx(), m, k - 1, g.module.function_handles@.len())->0;
            if i < prev.len() {
                assert(prev[i] == name);
            }
            assert(unused_private(g, h) == Some(name));
        } else {
            lemma_by_symbol_sound(g, m, (k - 1) as nat, name);
        }
    }
}

/// Every name that the detector reports is the name of a function that
/// one of the handles names, that the module itself defines as private,
/// not as an entry point and under a name that does not begin with
/// `init`, and that no function calls.
pub proof fn lemma_reported_is_unused_private(g: &StacklessBytecodeGenerator, k: nat, name: Seq<char>)
    requires
        unused_by_module(g, k).contains(name),
    ensures
        exists|h: int| #[trigger] unused_private(g, h) == Some(name),
    decreases k,
{
    if k > 0 {
        let prev = unused_by_module(g, (k - 1) as nat);
        let here = unused_by_symbol(g, k - 1, g.symbol_pool@.len());
        let i = choose|i: int| 0 <= i < (prev + here).len() && (prev + here)[i] == name;
        if i < prev.len() {
            assert(prev[i] == name);
            lemma_reported_is_unused_private(g, (k - 1) as nat, name);
        } else {
            assert(here[i - prev.len()] == name);
            lemma_by_symbol_sound(g, k - 1, g.symbol_pool@.len(), name);
        }
    }
}

/// A text holds `x` exactly if `x` stands in it at least once.
pub proof fn lemma_count_contains(s: Seq<usize>, x: usize)
    ensures
        count_of(s, x) > 0 <==> s.contains(x),
    decreases s.len(),
{
    let p = |y: usize| y == x;
    if s.len() > 0 {
        lemma_count_contains(s.drop_last(), x);
        reveal(Seq::filter);
        assert(s.filter(p) == if p(s.last()) {
            s.drop_last().filter(p).push(s.last())
        } else {
            s.drop_last().filter(p)
        });
        if s.contains(x) {
            let i = choose|i: int| 0 <= i < s.len() && s[i] == x;
            if i < s.len() - 1 {
                assert(s.drop_last()[i] == x);
            }
        }
        if s.drop_last().contains(x) {
            let i = choose|i: int| 0 <= i < s.len() - 1 && s.drop_last()[i] == x;
            assert(s[i] == x);
        }
    } else {
        reveal(Seq::filter);
    }
}

fn starts_with_init_exec(name: &String) -> (r: bool)
    ensures
        r == starts_with_init(name@),
{
    let s = name.as_str();
    if s.unicode_len() < 4 {
        false
    } else {
        s.get_char(0) == 'i' && s.get_char(1) == 'n' && s.get_char(2) == 'i' && s.get_char(3) == 't'
    }
}

/// Whether some function of the module calls the node `h`.
fn has_caller_exec(stbgr: &StacklessBytecodeGenerator, h: usize) -> (r: bool)
    requires
        h < graph_out(stbgr.call_graph).len(),
    ensures
        r == has_caller(graph_out(stbgr.call_graph), h),
{
    let callers = predecessors(&stbgr.call_graph, h);
    let nodes = node_count(&stbgr.call_graph);
    let ghost out = graph_out(stbgr.call_graph);
    proof {
        if callers@.len() > 0 {
            let s = callers@[0];
            lemma_count_contains(callers@, s);
            lemma_count_contains(out[s as int], h);
            assert(out[s as int].contains(h));
        } else {
            assert forall|s: int| 0 <= s < out.len() implies !(#[trigger] out[s]).contains(h) by {
                let su = s as usize;
                lemma_count_contains(callers@, su);
                lemma_count_contains(out[su as int], h);
                assert(count_of(callers@, su) == count_of(out[su as int], h));
            }
        }
    }
    callers.len() > 0
}

/// Whether the module defines the function that the handle `h` names as
/// private and not as an entry point.
#[verifier::loop_isolation(false)]
fn privately_defined_exec(stbgr: &StacklessBytecodeGenerator, h: usize) -> (r: bool)
    requires
        stbgr.wf(),
        h < stbgr.module.function_handles@.len(),
    ensures
        r == privately_defined(stbgr, h as int, stbgr.module.function_defs@.len()),
{
    let m = stbgr.module;
    assert(m.function_handle_ok(h as int));
    let module = m.function_handles[h].module;
    let symbol = stbgr.ident_symbols[m.function_handles[h].name as usize].0;
    let mut found = false;
    let mut d: usize = 0;
    while d < m.function_defs.len()
        invariant
            d <= m.function_defs.len(),
            found == privately_defined(stbgr, h as int, d as nat),
        decreases m.function_defs.len() - d,
    {
        assert(m.function_def_ok(d as int));
        let def = &m.function_defs[d];
        assert(m.function_handle_ok(def.function as int));
        let handle = m.function_handles[def.function as usize];
        let private = match def.visibility {
            Visibility::Private => true,
            _ => false,
        };
        if handle.module == module && stbgr.ident_symbols[handle.name as usize].0 == symbol
            && private && !def.is_entry {
            found = true;
        }
        d += 1;
    }
    found
}

/// What the detector reports of the function that the handle `h` names.
fn unused_private_exec(stbgr: &StacklessBytecodeGenerator, h: usize) -> (r: Option<String>)
    requires
        stbgr.wf(),
        graph_out(stbgr.call_graph).len() == stbgr.module.function_handles@.len(),
        h < stbgr.module.function_handles@.len(),
    ensures
        match unused_private(stbgr, h as int) {
            Some(name) => r matches Some(x) && x@ == name,
            None => r is None,
        },
{
    let m = stbgr.module;
    assert(m.function_handle_ok(h as int));
    if m.function_handles[h].module != m.self_module_handle_idx {
        return None;
    }
    let name = &m.identifiers[m.function_handles[h].name as usize];
    if privately_defined_exec(stbgr, h) && !has_caller_exec(stbgr, h) && !starts_with_init_exec(
        name,
    ) {
        Some(name.clone())
    } else {
        None
    }
}

/// The private functions of the module that nothing calls, in the order
/// of the modules that their handles name and, within one module, of the
/// places of their names in the pool.
#[verifier::loop_isolation(false)]
pub fn detect_unused_private_functions(stbgr: &StacklessBytecodeGenerator) -> (r: Vec<String>)
    requires
        stbgr.wf(),
        graph_out(stbgr.call_graph).len() == stbgr.module.function_handles@.len(),
    ensures
        texts(r@) == unused_private_functions(stbgr),
{
    let modules = stbgr.module.module_handles.len();
    let names = stbgr.symbol_pool.len();
    let mut out: Vec<String> = Vec::new();
    let mut m: usize = 0;
    assert(texts(out@) =~= unused_by_module(stbgr, 0));
    while m < modules
        invariant
            m <= modules,
            texts(out@) == unused_by_module(stbgr, m as nat),
        decreases modules - m,
    {
        let ghost start = texts(out@);
        let mut s: usize = 0;
        assert(texts(out@) =~= start + unused_by_symbol(stbgr, m as int, 0));
        while s < names
            invariant
                s <= names,
                texts(out@) == start + unused_by_symbol(stbgr, m as int, s as nat),
            decreases names - s,
        {
            let ghost before = texts(out@);
            match stbgr.find_keyed(m, s) {
                Some(h) => {
                    match unused_private_exec(stbgr, h) {
                        Some(name) => {
                            out.push(name);
                            assert(texts(out@) =~= before.push(name@));
                            assert(before.push(name@) =~= start + unused_by_symbol(
                                stbgr,
                                m as int,
                                (s + 1) as nat,
                            ));
                        },
                        None => {},
                    }
                },
                None => {},
            }
            s += 1;
        }
        m += 1;
    }
    out
}

/// The detector of private functions that nothing calls.
pub struct Detector6<'a> {
    pub packages: &'a crate::move_ir::packages::Packages<'a>,
    pub content: crate::scanner::result::DetectContent,
}

impl<'a> crate::scanner::detectors::AbstractDetector<'a> for Detector6<'a> {
    open spec fn package(&self) -> &'a crate::move_ir::packages::Packages<'a> {
        self.packages
    }

    open spec fn found(&self) -> &crate::scanner::result::DetectContent {
        &self.content
    }

    open spec fn class() -> crate::scanner::result::DetectKind {
        crate::scanner::result::DetectKind::UnusedPrivateFunctions
    }

    fn new(packages: &'a crate::move_ir::packages::Packages<'a>) -> (r: Self) {
        Self {
            packages,
            content: crate::scanner::result::DetectContent::new(
                crate::scanner::result::Severity::Minor,
                crate::scanner::result::DetectKind::UnusedPrivateFunctions,
            ),
        }
    }

    fn run(&mut self) -> (r: &crate::scanner::result::DetectContent) {
        self.content.result = crate::scanner::detects::common::run_detector(
            crate::scanner::result::DetectKind::UnusedPrivateFunctions,
            self.packages,
        );
        &self.content
    }
}

} // verus!
