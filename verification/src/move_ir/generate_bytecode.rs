use vstd::prelude::*;
use vstd::string::StringExecFns;
use crate::move_ir::bytecode::{code_view, AttrId, Bytecode, BytecodeV, Label};
use crate::move_ir::call_graph::{graph_new, graph_out, graph_weights, CallGraph};
use crate::move_ir::control_flow_graph::StacklessControlFlowGraph;
use crate::move_ir::data_dependency::DataDepent;
use crate::move_ir::def_use::{
    build_def_use, def_table, eliminate_fallthrough, table_view, use_table, with_jumps,
};
use crate::move_ir::emit::{labels_of, lift_state, LabelTable};
use crate::move_ir::file_format::{CompiledModule, MoveBytecode};
use crate::move_ir::lowering::{lower_prefix, LabelMap, LiftCtx, LiftState, VectorFunctions};
use crate::move_ir::types::{
    types_view, FunId, Loc, ModuleId, ModuleName, QualifiedId, Symbol, SymbolPool, Type, TypeV,
};
use crate::move_ir::u256::U256;

verus! {

/// One lifted function: its stackless code, the type of every temp, and
/// where each temp is written and read.
pub struct FunctionInfo {
    pub idx: usize,
    pub name: String,
    pub args_count: usize,
    pub code: Vec<Bytecode>,
    pub local_types: Vec<Type>,
    pub location_table: Vec<Loc>,
    pub loop_invariants: Vec<AttrId>,
    pub fallthrough_labels: Vec<Label>,
    pub cfg: Option<StacklessControlFlowGraph>,
    pub def_attrid: Vec<Vec<usize>>,
    pub use_attrid: Vec<Vec<usize>>,
}

impl FunctionInfo {
    /// What lowering has built of this function so far, with `stack` as
    /// the simulated stack.
    pub open spec fn state(&self, stack: Seq<usize>) -> LiftState {
        lift_state(self.code@, self.local_types@, stack, self.location_table@.len())
    }

    /// The two functions agree on all that lowering an instruction leaves
    /// alone.
    pub open spec fn same_frame(&self, other: &Self) -> bool {
        &&& self.idx == other.idx
        &&& self.name == other.name
        &&& self.args_count == other.args_count
        &&& self.loop_invariants == other.loop_invariants
        &&& self.fallthrough_labels == other.fallthrough_labels
        &&& self.cfg == other.cfg
        &&& self.def_attrid == other.def_attrid
        &&& self.use_attrid == other.use_attrid
    }

    pub fn new(idx: usize, name: String) -> (r: Self)
        ensures
            r.idx == idx,
            r.name == name,
            r.args_count == 0,
            r.code@.len() == 0,
            r.local_types@.len() == 0,
            r.location_table@.len() == 0,
            r.loop_invariants@.len() == 0,
            r.fallthrough_labels@.len() == 0,
            r.cfg is None,
            r.def_attrid@.len() == 0,
            r.use_attrid@.len() == 0,
    {
        FunctionInfo {
            idx,
            name,
            args_count: 0,
            code: Vec::new(),
            local_types: Vec::new(),
            location_table: Vec::new(),
            loop_invariants: Vec::new(),
            fallthrough_labels: Vec::new(),
            cfg: None,
            def_attrid: Vec::new(),
            use_attrid: Vec::new(),
        }
    }
}

/// The lifter of one module: the module, its interned identifiers, and
/// the functions lifted so far.
pub struct StacklessBytecodeGenerator<'a> {
    pub module: &'a CompiledModule,
    pub module_name: ModuleName,
    pub temp_count: usize,
    pub temp_stack: Vec<usize>,
    pub symbol_pool: SymbolPool,
    pub ident_symbols: Vec<Symbol>,
    pub module_names: Vec<ModuleName>,
    pub vec_module_id: ModuleId,
    pub vec_funs: VectorFunctions,
    /// For each function handle of the module, the function it names and
    /// its node in the call graph.
    pub func_to_node: Vec<(QualifiedId<FunId>, usize)>,
    pub call_graph: CallGraph,
    pub functions: Vec<FunctionInfo>,
    /// The dependency trees of the temps of each function, once they are
    /// computed.
    pub data_dependency: Vec<DataDepent>,
}

/// The pool after `s` is interned.
pub open spec fn interned(pool: Seq<Seq<char>>, s: Seq<char>) -> Seq<Seq<char>> {
    if pool.contains(s) {
        pool
    } else {
        pool.push(s)
    }
}

/// The pool after the first `n` of `names` are interned, in order.
pub open spec fn interned_all(names: Seq<Seq<char>>, n: nat) -> Seq<Seq<char>>
    decreases n,
{
    if n == 0 {
        Seq::empty()
    } else {
        interned(interned_all(names, (n - 1) as nat), names[n - 1])
    }
}

/// The names that a lifter interns: the identifiers of the module, then
/// the name of the vector module and of its eight functions.
pub open spec fn pool_names(m: &CompiledModule) -> Seq<Seq<char>> {
    Seq::new(m.identifiers@.len(), |i: int| m.identifiers@[i]@) + seq![
        "vector"@,
        "length"@,
        "borrow"@,
        "borrow_mut"@,
        "push_back"@,
        "pop_back"@,
        "swap"@,
        "empty"@,
        "destroy_empty"@,
    ]
}

/// The name of the module behind the module handle `i`.
pub open spec fn handle_name(m: &CompiledModule, idents: Seq<Symbol>, i: int) -> ModuleName {
    let h = m.module_handles@[i];
    ModuleName { address: m.address_identifiers@[h.address as int], name: idents[h.name as int] }
}

/// Whether the module handle `i` names a module called `vector`.
pub open spec fn is_vector_handle(m: &CompiledModule, i: int) -> bool {
    m.identifiers@[m.module_handles@[i].name as int]@ == "vector"@
}

/// The last among the first `n` module handles that names a module called
/// `vector`.
pub open spec fn vector_handle(m: &CompiledModule, n: nat) -> Option<int>
    decreases n,
{
    if n == 0 {
        None
    } else if is_vector_handle(m, n - 1) {
        Some(n - 1)
    } else {
        vector_handle(m, (n - 1) as nat)
    }
}

/// The handle of the text `s` in a pool that holds it.
pub open spec fn symbol_in(pool: Seq<Seq<char>>, s: Seq<char>) -> Symbol {
    Symbol(pool.index_of(s) as usize)
}

/// The pool of a lifter of the module `m`.
pub open spec fn pool_of(m: &CompiledModule) -> Seq<Seq<char>> {
    interned_all(pool_names(m), pool_names(m).len())
}

/// What the lowering of the module `m` reads: the handle of each of its
/// identifiers in the pool of its lifter, the vector module, which is the
/// last module handle called `vector` or, where there is none, a module
/// behind all handles, and the handles of the eight vector functions.
pub open spec fn lift_ctx_of(m: &CompiledModule) -> LiftCtx {
    let pool = pool_of(m);
    LiftCtx {
        module: *m,
        idents: Seq::new(m.identifiers@.len(), |i: int| symbol_in(pool, m.identifiers@[i]@)),
        vec_module: ModuleId(
            match vector_handle(m, m.module_handles@.len()) {
                Some(v) => v as usize,
                None => m.module_handles@.len() as usize,
            },
        ),
        vec_funs: VectorFunctions {
            length: symbol_in(pool, "length"@),
            borrow: symbol_in(pool, "borrow"@),
            borrow_mut: symbol_in(pool, "borrow_mut"@),
            push_back: symbol_in(pool, "push_back"@),
            pop_back: symbol_in(pool, "pop_back"@),
            swap: symbol_in(pool, "swap"@),
            empty: symbol_in(pool, "empty"@),
            destroy_empty: symbol_in(pool, "destroy_empty"@),
        },
    }
}

/// In a pool that holds no text twice, a text has one handle.
pub proof fn lemma_symbol_in(pool: Seq<Seq<char>>, s: Seq<char>, sym: Symbol)
    requires
        pool.no_duplicates(),
        sym.0 < pool.len(),
        pool[sym.0 as int] == s,
    ensures
        symbol_in(pool, s) == sym,
{
    let j = pool.index_of(s);
    assert(0 <= j < pool.len() && pool[j] == s);
}

/// A pool with the identifiers of the module interned in order, and the
/// handle of each.
fn intern_identifiers(cm: &CompiledModule) -> (r: (SymbolPool, Vec<Symbol>))
    ensures
        r.0.wf(),
        r.0@ == interned_all(pool_names(cm), cm.identifiers@.len()),
        r.1@.len() == cm.identifiers@.len(),
        forall|j: int|
            0 <= j < r.1@.len() ==> (#[trigger] r.1@[j]).0 < r.0@.len() && r.0@[r.1@[j].0 as int]
                == cm.identifiers@[j]@,
{
    let mut pool = SymbolPool::new();
    let mut ident_symbols: Vec<Symbol> = Vec::new();
    let ghost names = pool_names(cm);
    let n_ident = cm.identifiers.len();
    let mut i: usize = 0;
    while i < n_ident
        invariant
            i <= n_ident,
            n_ident == cm.identifiers@.len(),
            names == pool_names(cm),
            pool.wf(),
            pool@ == interned_all(names, i as nat),
            ident_symbols@.len() == i,
            forall|j: int|
                0 <= j < i ==> (#[trigger] ident_symbols@[j]).0 < pool@.len()
                    && pool@[ident_symbols@[j].0 as int] == cm.identifiers@[j]@,
        decreases n_ident - i,
    {
        let ghost before = pool@;
        let sym = pool.make(cm.identifiers[i].as_str());
        assert(names[i as int] == cm.identifiers@[i as int]@);
        assert(pool@ == interned(before, names[i as int]));
        assert forall|j: int| 0 <= j < i implies (#[trigger] ident_symbols@[j]).0 < pool@.len()
            && pool@[ident_symbols@[j].0 as int] == cm.identifiers@[j]@ by {
            assert(before[ident_symbols@[j].0 as int] == cm.identifiers@[j]@);
        }
        ident_symbols.push(sym);
        i += 1;
    }
    (pool, ident_symbols)
}

/// Interns one more of the names of a lifter, the one at place `k`.
fn intern_next(pool: &mut SymbolPool, name: &str, Ghost(names): Ghost<Seq<Seq<char>>>, Ghost(k): Ghost<nat>) -> (sym:
    Symbol)
    requires
        old(pool).wf(),
        old(pool)@ == interned_all(names, k),
        k < names.len(),
        names[k as int] == name@,
    ensures
        final(pool).wf(),
        final(pool)@ == interned_all(names, k + 1),
        sym.0 < final(pool)@.len(),
        final(pool)@[sym.0 as int] == name@,
        old(pool)@.len() <= final(pool)@.len(),
        forall|j: int| 0 <= j < old(pool)@.len() ==> final(pool)@[j] == old(pool)@[j],
{
    pool.make(name)
}

/// Interns the name of the vector module and of its eight functions.
fn intern_vector_names(pool: &mut SymbolPool, Ghost(names): Ghost<Seq<Seq<char>>>, n_ident: usize) -> (r: (
    Symbol,
    VectorFunctions,
))
    requires
        old(pool).wf(),
        old(pool)@ == interned_all(names, n_ident as nat),
        names.len() == n_ident + 9,
        names[n_ident as int] == "vector"@,
        names[n_ident + 1] == "length"@,
        names[n_ident + 2] == "borrow"@,
        names[n_ident + 3] == "borrow_mut"@,
        names[n_ident + 4] == "push_back"@,
        names[n_ident + 5] == "pop_back"@,
        names[n_ident + 6] == "swap"@,
        names[n_ident + 7] == "empty"@,
        names[n_ident + 8] == "destroy_empty"@,
    ensures
        final(pool).wf(),
        final(pool)@ == interned_all(names, names.len()),
        old(pool)@.len() <= final(pool)@.len(),
        forall|j: int| 0 <= j < old(pool)@.len() ==> final(pool)@[j] == old(pool)@[j],
        held(final(pool)@, r.0, "vector"@),
        held(final(pool)@, r.1.length, "length"@),
        held(final(pool)@, r.1.borrow, "borrow"@),
        held(final(pool)@, r.1.borrow_mut, "borrow_mut"@),
        held(final(pool)@, r.1.push_back, "push_back"@),
        held(final(pool)@, r.1.pop_back, "pop_back"@),
        held(final(pool)@, r.1.swap, "swap"@),
        held(final(pool)@, r.1.empty, "empty"@),
        held(final(pool)@, r.1.destroy_empty, "destroy_empty"@),
{
    let ghost n = n_ident as nat;
    let vector = intern_next(pool, "vector", Ghost(names), Ghost(n));
    let length = intern_next(pool, "length", Ghost(names), Ghost(n + 1));
    let borrow = intern_next(pool, "borrow", Ghost(names), Ghost(n + 2));
    let borrow_mut = intern_next(pool, "borrow_mut", Ghost(names), Ghost(n + 3));
    let push_back = intern_next(pool, "push_back", Ghost(names), Ghost(n + 4));
    let pop_back = intern_next(pool, "pop_back", Ghost(names), Ghost(n + 5));
    let swap = intern_next(pool, "swap", Ghost(names), Ghost(n + 6));
    let empty = intern_next(pool, "empty", Ghost(names), Ghost(n + 7));
    let destroy_empty = intern_next(pool, "destroy_empty", Ghost(names), Ghost(n + 8));
    (
        vector,
        VectorFunctions {
            length,
            borrow,
            borrow_mut,
            push_back,
            pop_back,
            swap,
            empty,
            destroy_empty,
        },
    )
}

/// The pool holds the text `s` under the handle `sym`.
pub open spec fn held(pool: Seq<Seq<char>>, sym: Symbol, s: Seq<char>) -> bool {
    sym.0 < pool.len() && pool[sym.0 as int] == s
}

/// The name of the module behind each module handle, and the last handle
/// that names a module called `vector`.
fn module_names_of(cm: &CompiledModule, ident_symbols: &Vec<Symbol>) -> (r: (
    Vec<ModuleName>,
    Option<usize>,
))
    requires
        cm.bounds_ok(),
        ident_symbols@.len() == cm.identifiers@.len(),
    ensures
        r.0@.len() == cm.module_handles@.len(),
        forall|j: int|
            0 <= j < r.0@.len() ==> #[trigger] r.0@[j] == handle_name(cm, ident_symbols@, j),
        match r.1 {
            Some(v) => v < cm.module_handles@.len() && is_vector_handle(cm, v as int) && (forall|
                j: int,
            | v < j < cm.module_handles@.len() ==> !is_vector_handle(cm, j)) && vector_handle(
                cm,
                cm.module_handles@.len(),
            ) == Some(v as int),
            None => (forall|j: int| 0 <= j < cm.module_handles@.len() ==> !is_vector_handle(cm, j))
                && vector_handle(cm, cm.module_handles@.len()) is None,
        },
{
    let mut module_names: Vec<ModuleName> = Vec::new();
    let mut vec_module: Option<usize> = None;
    let target = String::from_str("vector");
    let n_handles = cm.module_handles.len();
    let mut k: usize = 0;
    while k < n_handles
        invariant
            k <= n_handles,
            n_handles == cm.module_handles@.len(),
            cm.bounds_ok(),
            target@ == "vector"@,
            ident_symbols@.len() == cm.identifiers@.len(),
            module_names@.len() == k,
            forall|j: int|
                0 <= j < k ==> #[trigger] module_names@[j] == handle_name(cm, ident_symbols@, j),
            match vec_module {
                Some(v) => v < k && is_vector_handle(cm, v as int) && forall|j: int|
                    v < j < k ==> !is_vector_handle(cm, j),
                None => forall|j: int| 0 <= j < k ==> !is_vector_handle(cm, j),
            },
            match vec_module {
                Some(v) => vector_handle(cm, k as nat) == Some(v as int),
                None => vector_handle(cm, k as nat) is None,
            },
        decreases n_handles - k,
    {
        let h = &cm.module_handles[k];
        assert(cm.module_handle_ok(k as int));
        let name = ModuleName::new(
            cm.address_identifiers[h.address as usize],
            ident_symbols[h.name as usize],
        );
        if cm.identifiers[h.name as usize] == target {
            vec_module = Some(k);
        }
        module_names.push(name);
        k += 1;
    }
    (module_names, vec_module)
}

impl<'a> StacklessBytecodeGenerator<'a> {
    pub open spec fn ctx(&self) -> LiftCtx {
        LiftCtx {
            module: *self.module,
            idents: self.ident_symbols@,
            vec_module: self.vec_module_id,
            vec_funs: self.vec_funs,
        }
    }

    /// The two lifters agree on all but the simulated stack and the temp
    /// counter.
    pub open spec fn same_context(&self, other: &Self) -> bool {
        &&& self.module == other.module
        &&& self.module_name == other.module_name
        &&& self.symbol_pool == other.symbol_pool
        &&& self.ident_symbols == other.ident_symbols
        &&& self.module_names == other.module_names
        &&& self.vec_module_id == other.vec_module_id
        &&& self.vec_funs == other.vec_funs
        &&& self.func_to_node == other.func_to_node
        &&& self.call_graph == other.call_graph
        &&& self.functions == other.functions
        &&& self.data_dependency == other.data_dependency
    }

    pub open spec fn holds(&self, sym: Symbol, s: Seq<char>) -> bool {
        sym.0 < self.symbol_pool@.len() && self.symbol_pool@[sym.0 as int] == s
    }

    /// The module's indices are in range, the pool holds every identifier
    /// of the module under the handle recorded for it, and the vector
    /// module and its functions are known.
    pub open spec fn wf(&self) -> bool {
        &&& self.module.bounds_ok()
        &&& self.symbol_pool.wf()
        &&& self.ident_symbols@.len() == self.module.identifiers@.len()
        &&& forall|i: int|
            0 <= i < self.ident_symbols@.len() ==> self.holds(
                #[trigger] self.ident_symbols@[i],
                self.module.identifiers@[i]@,
            )
        &&& self.holds(self.vec_funs.length, "length"@)
        &&& self.holds(self.vec_funs.borrow, "borrow"@)
        &&& self.holds(self.vec_funs.borrow_mut, "borrow_mut"@)
        &&& self.holds(self.vec_funs.push_back, "push_back"@)
        &&& self.holds(self.vec_funs.pop_back, "pop_back"@)
        &&& self.holds(self.vec_funs.swap, "swap"@)
        &&& self.holds(self.vec_funs.empty, "empty"@)
        &&& self.holds(self.vec_funs.destroy_empty, "destroy_empty"@)
        &&& self.module_names@.len() >= self.module.module_handles@.len()
        &&& self.vec_module_id.0 < self.module_names@.len()
        &&& self.holds(self.module_names@[self.vec_module_id.0 as int].name, "vector"@)
        &&& forall|i: int|
            0 <= i < self.module.module_handles@.len() ==> #[trigger] self.module_names@[i]
                == handle_name(self.module, self.ident_symbols@, i)
        &&& self.module_name == handle_name(
            self.module,
            self.ident_symbols@,
            self.module.self_module_handle_idx as int,
        )
    }

    /// The pool holds the name of the lifted module.
    pub proof fn lemma_module_name_known(&self)
        requires
            self.wf(),
            self.module_name == handle_name(
                self.module,
                self.ident_symbols@,
                self.module.self_module_handle_idx as int,
            ),
        ensures
            self.module_name.name.0 < self.symbol_pool@.len(),
    {
        let i = self.module.self_module_handle_idx as int;
        assert(self.module.module_handle_ok(i));
        let k = self.module.module_handles@[i].name as int;
        assert(self.holds(self.ident_symbols@[k], self.module.identifiers@[k]@));
    }

    /// A lifter for `cm` with no function lifted yet. The vector module is
    /// the last module handle called `vector`; where there is none, a
    /// module of that name at address 1 is added behind the handles.
    pub fn new(cm: &'a CompiledModule) -> (r: Self)
        requires
            cm.bounds_ok(),
        ensures
            r.wf(),
            r.module == cm,
            r.symbol_pool@ == pool_of(cm),
            r.ctx() == lift_ctx_of(cm),
            r.module_name == handle_name(cm, r.ident_symbols@, cm.self_module_handle_idx as int),
            r.functions@.len() == 0,
            r.data_dependency@.len() == 0,
            r.func_to_node@.len() == 0,
            graph_weights(r.call_graph).len() == 0,
            graph_out(r.call_graph).len() == 0,
            r.temp_count == 0,
            r.temp_stack@.len() == 0,
            (exists|i: int| 0 <= i < cm.module_handles@.len() && is_vector_handle(cm, i)) ==> {
                &&& r.module_names@.len() == cm.module_handles@.len()
                &&& is_vector_handle(cm, r.vec_module_id.0 as int)
                &&& forall|j: int|
                    r.vec_module_id.0 < j < cm.module_handles@.len() ==> !is_vector_handle(cm, j)
            },
            !(exists|i: int| 0 <= i < cm.module_handles@.len() && is_vector_handle(cm, i)) ==> {
                &&& r.module_names@.len() == cm.module_handles@.len() + 1
                &&& r.vec_module_id.0 == cm.module_handles@.len()
                &&& r.module_names@[r.vec_module_id.0 as int].address@ == 1
            },
    {
        let (mut pool, ident_symbols) = intern_identifiers(cm);
        let ghost names = pool_names(cm);
        let ghost pool0 = pool@;
        let n_ident = cm.identifiers.len();
        let (vector, vec_funs) = intern_vector_names(&mut pool, Ghost(names), n_ident);
        let length = vec_funs.length;
        let borrow = vec_funs.borrow;
        let borrow_mut = vec_funs.borrow_mut;
        let push_back = vec_funs.push_back;
        let pop_back = vec_funs.pop_back;
        let swap = vec_funs.swap;
        let empty = vec_funs.empty;
        let destroy_empty = vec_funs.destroy_empty;
        let (mut module_names, vec_module) = module_names_of(cm, &ident_symbols);
        let vec_module_id = match vec_module {
            Some(v) => {
                assert(cm.module_handle_ok(v as int));
                assert(module_names@[v as int] == handle_name(cm, ident_symbols@, v as int));
                ModuleId::new(v)
            },
            None => {
                let index = module_names.len();
                module_names.push(ModuleName::new(U256::new(1), vector));
                ModuleId::new(index)
            },
        };
        assert(cm.module_handle_ok(cm.self_module_handle_idx as int));
        let self_handle = &cm.module_handles[cm.self_module_handle_idx as usize];
        let module_name = ModuleName::new(
            cm.address_identifiers[self_handle.address as usize],
            ident_symbols[self_handle.name as usize],
        );
        proof {
            let p = pool@;
            assert(names.len() == n_ident + 9);
            assert(p == pool_of(cm));
            assert forall|j: int| 0 <= j < n_ident implies (#[trigger] ident_symbols@[j]).0 < p.len()
                && p[ident_symbols@[j].0 as int] == cm.identifiers@[j]@ by {
                assert(pool0[ident_symbols@[j].0 as int] == cm.identifiers@[j]@);
            }
            lemma_symbol_in(p, "length"@, length);
            lemma_symbol_in(p, "borrow"@, borrow);
            lemma_symbol_in(p, "borrow_mut"@, borrow_mut);
            lemma_symbol_in(p, "push_back"@, push_back);
            lemma_symbol_in(p, "pop_back"@, pop_back);
            lemma_symbol_in(p, "swap"@, swap);
            lemma_symbol_in(p, "empty"@, empty);
            lemma_symbol_in(p, "destroy_empty"@, destroy_empty);
            assert forall|i: int| 0 <= i < cm.identifiers@.len() implies ident_symbols@[i]
                == symbol_in(p, cm.identifiers@[i]@) by {
                lemma_symbol_in(p, cm.identifiers@[i]@, ident_symbols@[i]);
            }
            assert(ident_symbols@ =~= lift_ctx_of(cm).idents);
        }
        StacklessBytecodeGenerator {
            module: cm,
            module_name,
            temp_count: 0,
            temp_stack: Vec::new(),
            symbol_pool: pool,
            ident_symbols,
            module_names,
            vec_module_id,
            vec_funs,
            func_to_node: Vec::new(),
            call_graph: graph_new(),
            functions: Vec::new(),
            data_dependency: Vec::new(),
        }
    }
}

/// A lifted function, as lowering defines it.
pub ghost struct Lifted {
    pub code: Seq<BytecodeV>,
    pub types: Seq<TypeV>,
    pub attrs: nat,
    pub fallthrough: Set<Label>,
    pub args_count: nat,
}

/// The source instructions of a defined function; none for a native one.
pub open spec fn source_code(ctx: LiftCtx, def_idx: int) -> Seq<MoveBytecode> {
    match ctx.module.function_defs@[def_idx].code {
        Some(unit) => unit.code@,
        None => Seq::empty(),
    }
}

/// The state that lowering starts a function in: no code, one temp for
/// each parameter and declared local, an empty stack.
pub open spec fn init_state(ctx: LiftCtx, def_idx: int) -> LiftState {
    LiftState {
        code: Seq::empty(),
        types: ctx.globalize_all(ctx.local_tokens(def_idx)),
        stack: Seq::empty(),
        attrs: 0,
    }
}

/// Whether code of `n` instructions leaves room for the two blocks that
/// a control-flow graph holds besides its basic blocks, when every
/// instruction is a block of its own.
pub open spec fn leaves_room(n: nat) -> bool {
    n + 2 <= usize::MAX
}

/// The function defined at `def_idx`, lifted: its source instructions
/// lowered in order from the initial state, then a jump put before every
/// label that would be fallen through to. `None` where an instruction
/// cannot be lowered, or where the code leaves no room for the blocks
/// of its control-flow graph.
pub open spec fn lift_function(ctx: LiftCtx, def_idx: int) -> Option<Lifted> {
    let code = source_code(ctx, def_idx);
    let labels = LabelMap::build(code, code.len());
    match lower_prefix(ctx, labels, def_idx, code, code.len(), init_state(ctx, def_idx)) {
        Some(st) => if leaves_room(with_jumps(st.code, st.code.len()).len()) {
            Some(
                Lifted {
                    code: with_jumps(st.code, st.code.len()),
                    types: st.types,
                    attrs: st.attrs,
                    fallthrough: labels.fallthrough,
                    args_count: ctx.local_tokens(def_idx).len(),
                },
            )
        } else {
            None
        },
        None => None,
    }
}

impl FunctionInfo {
    /// This function holds what `l` says, with its tables of definitions
    /// and uses, and its code leaves room for the blocks of its
    /// control-flow graph.
    pub open spec fn lifted_code(&self, l: Lifted) -> bool {
        &&& code_view(self.code@) == l.code
        &&& leaves_room(self.code@.len())
        &&& types_view(self.local_types@) == l.types
        &&& self.location_table@.len() == l.attrs
        &&& self.fallthrough_labels@.to_set() == l.fallthrough
        &&& self.args_count == l.args_count
        &&& self.loop_invariants@.len() == 0
        &&& table_view(self.def_attrid@) == def_table(l.code, l.types.len())
        &&& table_view(self.use_attrid@) == use_table(l.code, l.types.len())
    }

    /// This function holds what `l` says and has no control-flow graph
    /// yet.
    pub open spec fn lifted_as(&self, l: Lifted) -> bool {
        self.lifted_code(l) && self.cfg is None
    }
}

/// The labels of `code`: one for each branch target, and one for the
/// instruction after each conditional branch, numbered in the order in
/// which the offsets are first met.
pub fn build_labels(code: &Vec<MoveBytecode>) -> (r: (LabelTable, Vec<Label>))
    requires
        code@.len() <= 0xffff,
        forall|pc: int|
            0 <= pc < code@.len() ==> match #[trigger] code@[pc] {
                MoveBytecode::BrTrue(t) | MoveBytecode::BrFalse(t) | MoveBytecode::Branch(t) => (
                t as int) < code@.len(),
                _ => true,
            },
    ensures
        labels_of(&r.0, r.1@) == LabelMap::build(code@, code@.len()),
        r.0.at@.len() == code@.len() + 1,
{
    let n = code.len();
    let mut at: Vec<Option<Label>> = Vec::new();
    let mut i: usize = 0;
    while i < n + 1
        invariant
            i <= n + 1,
            n <= 0xffff,
            at@.len() == i,
            forall|j: int| 0 <= j < i ==> at@[j] == None::<Label>,
        decreases n + 1 - i,
    {
        at.push(None);
        i += 1;
    }
    let mut table = LabelTable { at, count: 0 };
    let mut fall: Vec<Label> = Vec::new();
    proof {
        assert(table.at@ =~= LabelMap::empty(code@.len()).at);
        assert(fall@.to_set() =~= Set::<Label>::empty());
    }
    let mut pos: usize = 0;
    while pos < n
        invariant
            pos <= n,
            n == code@.len(),
            n <= 0xffff,
            table.at@.len() == n + 1,
            table.count <= 2 * pos,
            labels_of(&table, fall@) == LabelMap::build(code@, pos as nat),
            forall|pc: int|
                0 <= pc < code@.len() ==> match #[trigger] code@[pc] {
                    MoveBytecode::BrTrue(t) | MoveBytecode::BrFalse(t) | MoveBytecode::Branch(
                        t,
                    ) => (t as int) < code@.len(),
                    _ => true,
                },
        decreases n - pos,
    {
        let ghost before = labels_of(&table, fall@);
        let bc = code[pos];
        let target: Option<u16> = match bc {
            MoveBytecode::BrTrue(t) | MoveBytecode::BrFalse(t) | MoveBytecode::Branch(t) => Some(t),
            _ => None,
        };
        match target {
            Some(t) => {
                if table.at[t as usize].is_none() {
                    table.at.set(t as usize, Some(Label::new(table.count)));
                    table.count = table.count + 1;
                }
                assert(labels_of(&table, fall@) == before.with_target(t as int));
            },
            None => {},
        }
        let ghost mid = labels_of(&table, fall@);
        let conditional = match bc {
            MoveBytecode::BrTrue(_) | MoveBytecode::BrFalse(_) => true,
            _ => false,
        };
        if conditional {
            if table.at[pos + 1].is_none() {
                let l = Label::new(table.count);
                let ghost old_fall = fall@;
                table.at.set(pos + 1, Some(l));
                fall.push(l);
                table.count = table.count + 1;
                assert(fall@.to_set() =~= mid.fallthrough.insert(l)) by {
                    assert(fall@.drop_last() =~= old_fall);
                    assert(fall@.drop_last().to_set().insert(fall@.last()) =~= fall@.to_set());
                }
            }
            assert(labels_of(&table, fall@) == mid.with_fallthrough(pos + 1));
        }
        assert(labels_of(&table, fall@) == before.step(pos as int, bc));
        pos += 1;
    }
    (table, fall)
}

impl<'a> StacklessBytecodeGenerator<'a> {
    /// The two lifters agree on the module and on all that was derived
    /// from it when the lifter was made.
    pub open spec fn same_module(&self, other: &Self) -> bool {
        &&& self.module == other.module
        &&& self.module_name == other.module_name
        &&& self.symbol_pool == other.symbol_pool
        &&& self.ident_symbols == other.ident_symbols
        &&& self.module_names == other.module_names
        &&& self.vec_module_id == other.vec_module_id
        &&& self.vec_funs == other.vec_funs
        &&& self.func_to_node == other.func_to_node
        &&& self.call_graph == other.call_graph
        &&& self.data_dependency == other.data_dependency
    }

    /// The name of the function defined at `def_idx`.
    pub open spec fn spec_function_name(&self, def_idx: int) -> Seq<char> {
        let d = self.module.function_defs@[def_idx];
        self.module.identifiers@[self.module.function_handles@[d.function as int].name as int]@
    }

    /// The types of the parameters and declared locals of the function
    /// defined at `def_idx`.
    fn local_types(&self, def_idx: usize) -> (r: Vec<Type>)
        requires
            self.wf(),
            def_idx < self.module.function_defs@.len(),
        ensures
            types_view(r@) == self.ctx().globalize_all(self.ctx().local_tokens(def_idx as int)),
            r@.len() == self.ctx().local_tokens(def_idx as int).len(),
    {
        let module: &CompiledModule = self.module;
        let d = &module.function_defs[def_idx];
        assert(module.function_def_ok(def_idx as int));
        assert(module.function_handle_ok(d.function as int));
        let h = &module.function_handles[d.function as usize];
        assert(module.signature_ok(h.parameters as int));
        let params = &module.signatures[h.parameters as usize].0;
        let mut out = self.globalize_signatures(params);
        let ghost tokens = self.ctx().local_tokens(def_idx as int);
        assert(types_view(out@).len() == params@.len());
        match &d.code {
            Some(unit) => {
                assert(module.signature_ok(unit.locals as int));
                let locals = &module.signatures[unit.locals as usize].0;
                let mut more = self.globalize_signatures(locals);
                let ghost a = out@;
                let ghost b = more@;
                assert(types_view(b).len() == locals@.len());
                out.append(&mut more);
                assert(out@ == a + b);
                assert(tokens == params@ + locals@);
                assert forall|i: int| 0 <= i < out@.len() implies out@[i]@ == self.ctx().globalize(
                    tokens[i],
                ) by {
                    if i < a.len() {
                        assert(types_view(a)[i] == self.ctx().globalize(params@[i]));
                    } else {
                        assert(types_view(b)[i - a.len()] == self.ctx().globalize(
                            locals@[i - a.len()],
                        ));
                    }
                }
                assert(types_view(out@) =~= self.ctx().globalize_all(tokens));
            },
            None => {
                assert(tokens == params@);
            },
        }
        out
    }

    /// Lowers the source instruction at `pc` of the function defined at
    /// `idx`, as one step of lifting the function.
    fn lift_step(
        &mut self,
        idx: usize,
        code: &Vec<MoveBytecode>,
        pc: usize,
        label_map: &LabelTable,
        function: &mut FunctionInfo,
        Ghost(init): Ghost<LiftState>,
    ) -> (ok: bool)
        requires
            old(self).wf(),
            idx < old(self).module.function_defs@.len(),
            code@ == source_code(old(self).ctx(), idx as int),
            pc < code@.len(),
            label_map.at@.len() == code@.len() + 1,
            Some(old(function).state(old(self).temp_stack@)) == lower_prefix(
                old(self).ctx(),
                labels_of(label_map, old(function).fallthrough_labels@),
                idx as int,
                code@,
                pc as nat,
                init,
            ),
        ensures
            final(self).wf(),
            final(self).same_context(old(self)),
            final(function).same_frame(old(function)),
            ok == (lower_prefix(
                old(self).ctx(),
                labels_of(label_map, old(function).fallthrough_labels@),
                idx as int,
                code@,
                (pc + 1) as nat,
                init,
            ) is Some),
            ok ==> Some(final(function).state(final(self).temp_stack@)) == lower_prefix(
                old(self).ctx(),
                labels_of(label_map, old(function).fallthrough_labels@),
                idx as int,
                code@,
                (pc + 1) as nat,
                init,
            ),
    {
        proof {
            let module = self.module;
            let unit = module.function_defs@[idx as int].code->0;
            assert(module.function_def_ok(idx as int));
            assert(module.instr_ok(
                unit.code@[pc as int],
                unit.code@.len(),
                module.spec_local_count(idx as int),
            ));
            assert(self.ctx().local_tokens(idx as int).len() == module.spec_local_count(
                idx as int,
            ));
        }
        self.try_generate_bytecode(idx, code[pc], pc as u16, label_map, function)
    }

    /// Lifts the function defined at `idx`: `None` where one of its
    /// instructions cannot be lowered, or where its code leaves no room
    /// for the blocks of its control-flow graph.
    pub fn lift_function(&mut self, idx: usize) -> (r: Option<FunctionInfo>)
        requires
            old(self).wf(),
            idx < old(self).module.function_defs@.len(),
        ensures
            final(self).wf(),
            final(self).same_context(old(self)),
            r is Some <==> lift_function(old(self).ctx(), idx as int) is Some,
            r matches Some(f) ==> {
                &&& f.lifted_as(lift_function(old(self).ctx(), idx as int)->0)
                &&& f.idx == idx
                &&& f.name@ == old(self).spec_function_name(idx as int)
            },
    {
        let module: &'a CompiledModule = self.module;
        let d = &module.function_defs[idx];
        assert(module.function_def_ok(idx as int));
        assert(module.function_handle_ok(d.function as int));
        let h = &module.function_handles[d.function as usize];
        let fname = module.identifiers[h.name as usize].clone();
        let mut function = FunctionInfo::new(idx, fname);
        let local_types = self.local_types(idx);
        self.temp_count = local_types.len();
        self.temp_stack = Vec::new();
        function.args_count = local_types.len();
        function.local_types = local_types;
        let no_code: Vec<MoveBytecode> = Vec::new();
        let stack_code: &Vec<MoveBytecode> = match &d.code {
            Some(unit) => &unit.code,
            None => &no_code,
        };
        let ghost ctx = self.ctx();
        let ghost src = source_code(ctx, idx as int);
        assert(stack_code@ =~= src);
        assert forall|pc: int| 0 <= pc < stack_code@.len() implies match #[trigger] stack_code@[pc] {
            MoveBytecode::BrTrue(t) | MoveBytecode::BrFalse(t) | MoveBytecode::Branch(t) => (
            t as int) < stack_code@.len(),
            _ => true,
        } by {
            let unit = d.code->0;
            assert(module.instr_ok(
                unit.code@[pc],
                unit.code@.len(),
                module.spec_local_count(idx as int),
            ));
        }
        let (label_map, fallthrough) = build_labels(stack_code);
        function.fallthrough_labels = fallthrough;
        let ghost labels = labels_of(&label_map, function.fallthrough_labels@);
        let ghost init = init_state(ctx, idx as int);
        assert(function.state(self.temp_stack@) =~= init) by {
            assert(code_view(function.code@) =~= Seq::<BytecodeV>::empty());
        }
        let ghost fall = function.fallthrough_labels;
        let mut pc: usize = 0;
        while pc < stack_code.len()
            invariant
                pc <= stack_code.len(),
                stack_code@ == src,
                src == source_code(ctx, idx as int),
                src.len() <= 0xffff,
                module == self.module,
                idx < module.function_defs@.len(),
                self.wf(),
                self.same_context(old(self)),
                ctx == self.ctx(),
                label_map.at@.len() == src.len() + 1,
                labels == labels_of(&label_map, function.fallthrough_labels@),
                labels == LabelMap::build(src, src.len()),
                init == init_state(ctx, idx as int),
                ctx == old(self).ctx(),
                function.fallthrough_labels == fall,
                function.def_attrid@.len() == 0,
                function.idx == idx,
                function.name@ == old(self).spec_function_name(idx as int),
                function.args_count == ctx.local_tokens(idx as int).len(),
                function.loop_invariants@.len() == 0,
                function.cfg is None,
                Some(function.state(self.temp_stack@)) == lower_prefix(
                    ctx,
                    labels,
                    idx as int,
                    src,
                    pc as nat,
                    init,
                ),
            decreases stack_code.len() - pc,
        {
            let ok = self.lift_step(idx, stack_code, pc, &label_map, &mut function, Ghost(init));
            if !ok {
                proof {
                    lemma_prefix_fails(ctx, labels, idx as int, src, (pc + 1) as nat, src.len(), init);
                }
                return None;
            }
            pc += 1;
        }
        let ghost st = function.state(self.temp_stack@);
        let mut code: Vec<Bytecode> = Vec::new();
        std::mem::swap(&mut function.code, &mut code);
        function.code = eliminate_fallthrough(code);
        if function.code.len() > usize::MAX - 2 {
            return None;
        }
        let (defs, uses) = build_def_use(&function.code, function.local_types.len());
        function.def_attrid = defs;
        function.use_attrid = uses;
        Some(function)
    }

    /// Lifts every function of the module, in the order of their
    /// definitions, and adds them to the functions lifted so far. Returns
    /// whether every one could be lifted.
    pub fn try_generate_function(&mut self) -> (ok: bool)
        requires
            old(self).wf(),
        ensures
            final(self).wf(),
            final(self).same_module(old(self)),
            ok == (forall|i: int|
                0 <= i < old(self).module.function_defs@.len() ==> lift_function(
                    old(self).ctx(),
                    i,
                ) is Some),
            ok ==> {
                &&& final(self).functions@.len() == old(self).functions@.len()
                    + old(self).module.function_defs@.len()
                &&& forall|i: int|
                    0 <= i < old(self).functions@.len() ==> final(self).functions@[i] == old(self).functions@[i]
                &&& forall|i: int|
                    0 <= i < old(self).module.function_defs@.len() ==> {
                        let f = #[trigger] final(self).functions@[old(self).functions@.len() + i];
                        &&& f.lifted_as(lift_function(old(self).ctx(), i)->0)
                        &&& f.idx == i
                        &&& f.name@ == old(self).spec_function_name(i)
                    }
            },
    {
        let n = self.module.function_defs.len();
        let ghost ctx = self.ctx();
        let ghost base = self.functions@.len();
        let mut idx: usize = 0;
        while idx < n
            invariant
                idx <= n,
                n == self.module.function_defs@.len(),
                self.wf(),
                self.same_module(old(self)),
                ctx == self.ctx(),
                base == old(self).functions@.len(),
                self.functions@.len() == base + idx,
                forall|i: int| 0 <= i < base ==> self.functions@[i] == old(self).functions@[i],
                forall|i: int| 0 <= i < idx ==> lift_function(ctx, i) is Some,
                forall|i: int|
                    0 <= i < idx ==> {
                        let f = #[trigger] self.functions@[base + i];
                        &&& f.lifted_as(lift_function(ctx, i)->0)
                        &&& f.idx == i
                        &&& f.name@ == old(self).spec_function_name(i)
                    },
            decreases n - idx,
        {
            match self.lift_function(idx) {
                Some(function) => {
                    self.functions.push(function);
                },
                None => {
                    return false;
                },
            }
            idx += 1;
        }
        true
    }

    /// Lifts every function of a module all of whose functions can be
    /// lifted, in the order of their definitions.
    pub fn generate_function(&mut self)
        requires
            old(self).wf(),
            forall|i: int|
                0 <= i < old(self).module.function_defs@.len() ==> lift_function(
                    old(self).ctx(),
                    i,
                ) is Some,
        ensures
            final(self).wf(),
            final(self).same_module(old(self)),
            final(self).functions@.len() == old(self).functions@.len()
                + old(self).module.function_defs@.len(),
            forall|i: int|
                0 <= i < old(self).functions@.len() ==> final(self).functions@[i] == old(self).functions@[i],
            forall|i: int|
                0 <= i < old(self).module.function_defs@.len() ==> {
                    let f = #[trigger] final(self).functions@[old(self).functions@.len() + i];
                    &&& f.lifted_as(lift_function(old(self).ctx(), i)->0)
                    &&& f.idx == i
                    &&& f.name@ == old(self).spec_function_name(i)
                },
    {
        let _ok = self.try_generate_function();
    }
}

/// Once a prefix of the code cannot be lowered, no longer prefix can.
pub proof fn lemma_prefix_fails(
    ctx: LiftCtx,
    labels: LabelMap,
    def_idx: int,
    code: Seq<MoveBytecode>,
    n: nat,
    m: nat,
    init: LiftState,
)
    requires
        n <= m,
        lower_prefix(ctx, labels, def_idx, code, n, init) is None,
    ensures
        lower_prefix(ctx, labels, def_idx, code, m, init) is None,
    decreases m,
{
    if n < m {
        lemma_prefix_fails(ctx, labels, def_idx, code, n, (m - 1) as nat, init);
    }
}

} // verus!
