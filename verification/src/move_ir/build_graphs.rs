use vstd::prelude::*;
use crate::move_ir::bytecode::{code_view, Bytecode, BytecodeV, Operation, OperationV};
use crate::move_ir::call_graph::{add_edge, add_node, graph_new, graph_out, graph_weights, total_edges};
use crate::move_ir::control_flow_graph::StacklessControlFlowGraph;
use crate::move_ir::generate_bytecode::{FunctionInfo, StacklessBytecodeGenerator};
use crate::move_ir::lowering::LiftCtx;
use crate::move_ir::types::{FunId, ModuleId, QualifiedId};

verus! {

/// The two functions agree on all but their control-flow graph.
pub open spec fn same_but_cfg(a: FunctionInfo, b: FunctionInfo) -> bool {
    &&& a.idx == b.idx
    &&& a.name == b.name
    &&& a.args_count == b.args_count
    &&& a.code == b.code
    &&& a.local_types == b.local_types
    &&& a.location_table == b.location_table
    &&& a.loop_invariants == b.loop_invariants
    &&& a.fallthrough_labels == b.fallthrough_labels
    &&& a.def_attrid == b.def_attrid
    &&& a.use_attrid == b.use_attrid
}

/// The function that the function handle `h` names.
pub open spec fn handle_qid(ctx: LiftCtx, h: int) -> QualifiedId<FunId> {
    QualifiedId {
        module_id: ModuleId(ctx.module.function_handles@[h].module as usize),
        id: FunId(ctx.idents[ctx.module.function_handles@[h].name as int]),
    }
}

/// The node of the function `q`: the last among the first `n` function
/// handles that names it.
pub open spec fn node_of(ctx: LiftCtx, q: QualifiedId<FunId>, n: nat) -> Option<int>
    decreases n,
{
    if n == 0 {
        None
    } else if handle_qid(ctx, n - 1) == q {
        Some(n - 1)
    } else {
        node_of(ctx, q, (n - 1) as nat)
    }
}

/// The node that the instruction calls, if it calls a function that a
/// function handle names.
pub open spec fn callee_of(ctx: LiftCtx, bc: BytecodeV) -> Option<int> {
    match bc {
        BytecodeV::Call(_, _, OperationV::Function(m, f, _), _, _) => node_of(
            ctx,
            QualifiedId { module_id: m, id: f },
            ctx.module.function_handles@.len(),
        ),
        _ => None,
    }
}

/// Some instruction among the first `n` of `code` calls the node `h`.
pub open spec fn calls(ctx: LiftCtx, code: Seq<BytecodeV>, h: int, n: nat) -> bool
    decreases n,
{
    if n == 0 {
        false
    } else {
        callee_of(ctx, code[n - 1]) == Some(h) || calls(ctx, code, h, (n - 1) as nat)
    }
}

/// The last among the first `n` function handles that names the function
/// with the name `s` in the module `m`.
pub open spec fn keyed_node(ctx: LiftCtx, m: int, s: int, n: nat) -> Option<int>
    decreases n,
{
    if n == 0 {
        None
    } else if ctx.module.function_handles@[n - 1].module == m && ctx.idents[ctx.module.function_handles@[n
        - 1].name as int].0 == s {
        Some(n - 1)
    } else {
        keyed_node(ctx, m, s, (n - 1) as nat)
    }
}

/// The nodes of the functions of the module `m` with the first `k` names
/// of the pool, in the order of the names.
pub open spec fn keys_by_symbol(ctx: LiftCtx, m: int, k: nat) -> Seq<usize>
    decreases k,
{
    if k == 0 {
        Seq::empty()
    } else {
        match keyed_node(ctx, m, k - 1, ctx.module.function_handles@.len()) {
            Some(h) => keys_by_symbol(ctx, m, (k - 1) as nat).push(h as usize),
            None => keys_by_symbol(ctx, m, (k - 1) as nat),
        }
    }
}

/// The nodes of the functions of the first `k` modules that the module
/// names, where the pool holds `names` names.
pub open spec fn keys_by_module(ctx: LiftCtx, names: nat, k: nat) -> Seq<usize>
    decreases k,
{
    if k == 0 {
        Seq::empty()
    } else {
        keys_by_module(ctx, names, (k - 1) as nat) + keys_by_symbol(ctx, k - 1, names)
    }
}

/// The nodes of the call graph in the order of the functions they stand
/// for: by the module that a function belongs to and, within one module,
/// by the place of its name in the pool. Of handles that name one
/// function the last stands for it.
pub open spec fn key_order(ctx: LiftCtx, names: nat) -> Seq<usize> {
    keys_by_module(ctx, names, ctx.module.module_handles@.len())
}

pub proof fn lemma_keyed_node_below(ctx: LiftCtx, m: int, s: int, n: nat)
    ensures
        keyed_node(ctx, m, s, n) matches Some(h) ==> 0 <= h < n,
    decreases n,
{
    if n > 0 {
        lemma_keyed_node_below(ctx, m, s, (n - 1) as nat);
    }
}

/// Every node of the order is a node of the graph.
pub proof fn lemma_key_order_below(ctx: LiftCtx, names: nat, k: nat)
    ensures
        forall|i: int|
            0 <= i < keys_by_module(ctx, names, k).len() ==> (#[trigger] keys_by_module(
                ctx,
                names,
                k,
            )[i]) < ctx.module.function_handles@.len(),
{
    lemma_keys_by_module_distinct(ctx, names, k);
}

/// Those among the first `k` nodes of `order` that `code` calls, the
/// later ones first.
pub open spec fn called_desc(ctx: LiftCtx, code: Seq<BytecodeV>, order: Seq<usize>, k: nat) -> Seq<
    usize,
>
    decreases k,
{
    if k == 0 {
        Seq::empty()
    } else if calls(ctx, code, order[k - 1] as int, code.len()) {
        seq![order[k - 1]] + called_desc(ctx, code, order, (k - 1) as nat)
    } else {
        called_desc(ctx, code, order, (k - 1) as nat)
    }
}

/// The node of the function that the definition at place `d` defines.
pub open spec fn caller_node(ctx: LiftCtx, d: int) -> int {
    let h = ctx.module.function_defs@[d].function as int;
    match node_of(ctx, handle_qid(ctx, h), ctx.module.function_handles@.len()) {
        Some(c) => c,
        None => h,
    }
}

/// The node of the function that a handle names is that handle or a later
/// one.
pub proof fn lemma_node_of_handle(ctx: LiftCtx, h: int, n: nat)
    requires
        0 <= h < n,
    ensures
        node_of(ctx, handle_qid(ctx, h), n) matches Some(c) && h <= c < n,
    decreases n,
{
    if h < n - 1 && handle_qid(ctx, n - 1) != handle_qid(ctx, h) {
        lemma_node_of_handle(ctx, h, (n - 1) as nat);
    }
}

/// The outgoing edges of the call graph after the first `n` functions
/// are looked at: each function has an edge to every function it calls,
/// added in the order `order` of the functions, and the edges added last
/// come first.
pub open spec fn call_out(
    ctx: LiftCtx,
    functions: Seq<FunctionInfo>,
    order: Seq<usize>,
    n: nat,
) -> Seq<Seq<usize>>
    decreases n,
{
    if n == 0 {
        Seq::new(ctx.module.function_handles@.len(), |h: int| Seq::<usize>::empty())
    } else {
        let prev = call_out(ctx, functions, order, (n - 1) as nat);
        let caller = caller_node(ctx, n - 1);
        prev.update(
            caller,
            called_desc(ctx, code_view(functions[n - 1].code@), order, order.len()) + prev[caller],
        )
    }
}

pub proof fn lemma_total_edges_update(out: Seq<Seq<usize>>, a: int, s: Seq<usize>)
    requires
        0 <= a < out.len(),
    ensures
        total_edges(out.update(a, s)) == total_edges(out) - out[a].len() + s.len(),
    decreases out.len(),
{
    let upd = out.update(a, s);
    if a == out.len() - 1 {
        assert(upd.drop_last() =~= out.drop_last());
    } else {
        lemma_total_edges_update(out.drop_last(), a, s);
        assert(upd.drop_last() =~= out.drop_last().update(a, s));
    }
}

impl<'a> StacklessBytecodeGenerator<'a> {
    /// The two lifters agree on all but the control-flow graphs of their
    /// functions.
    pub open spec fn same_but_cfgs(&self, other: &Self) -> bool {
        &&& self.same_module(other)
        &&& self.temp_count == other.temp_count
        &&& self.temp_stack == other.temp_stack
        &&& self.functions@.len() == other.functions@.len()
        &&& forall|i: int|
            0 <= i < self.functions@.len() ==> same_but_cfg(
                #[trigger] self.functions@[i],
                other.functions@[i],
            )
    }

    /// Whether the function at place `i` gets a control-flow graph: it is
    /// defined in the module, it is not native, and its code is not too
    /// long for the graph's block numbers.
    pub open spec fn has_body(&self, i: int) -> bool {
        &&& i < self.module.function_defs@.len()
        &&& !self.module.function_defs@[i].spec_is_native()
        &&& self.functions@[i].code@.len() + 2 <= usize::MAX
    }

    /// Builds the control-flow graph of every function that is not
    /// native.
    pub fn get_control_flow_graph(&mut self)
        ensures
            final(self).same_but_cfgs(old(self)),
            forall|i: int|
                0 <= i < old(self).functions@.len() ==> if old(self).has_body(i) {
                    (#[trigger] final(self).functions@[i]).cfg matches Some(g) && g.is_graph_of(
                        code_view(old(self).functions@[i].code@),
                    )
                } else {
                    final(self).functions@[i].cfg == old(self).functions@[i].cfg
                },
    {
        let n = self.functions.len();
        let module = self.module;
        let mut idx: usize = 0;
        while idx < n
            invariant
                idx <= n,
                n == old(self).functions@.len(),
                module == old(self).module,
                self.same_but_cfgs(old(self)),
                forall|i: int| idx <= i < n ==> self.functions@[i] == old(self).functions@[i],
                forall|i: int|
                    0 <= i < idx ==> if old(self).has_body(i) {
                        (#[trigger] self.functions@[i]).cfg matches Some(g) && g.is_graph_of(
                            code_view(old(self).functions@[i].code@),
                        )
                    } else {
                        self.functions@[i].cfg == old(self).functions@[i].cfg
                    },
            decreases n - idx,
        {
            if idx < module.function_defs.len() && !module.function_defs[idx].is_native()
                && self.functions[idx].code.len() <= usize::MAX - 2 {
                let cfg = StacklessControlFlowGraph::new_forward(&self.functions[idx].code);
                self.functions[idx].cfg = Some(cfg);
            }
            idx += 1;
        }
    }
}

/// The weight of the node of the function handle `h`: the index of the
/// module and the handle of the name of the function it names.
pub open spec fn handle_weight(ctx: LiftCtx, h: int) -> (usize, usize) {
    (
        ctx.module.function_handles@[h].module as usize,
        ctx.idents[ctx.module.function_handles@[h].name as int].0,
    )
}

impl<'a> StacklessBytecodeGenerator<'a> {
    /// The two lifters agree on all but the call graph.
    pub open spec fn same_but_call_graph(&self, other: &Self) -> bool {
        &&& self.module == other.module
        &&& self.module_name == other.module_name
        &&& self.symbol_pool == other.symbol_pool
        &&& self.ident_symbols == other.ident_symbols
        &&& self.module_names == other.module_names
        &&& self.vec_module_id == other.vec_module_id
        &&& self.vec_funs == other.vec_funs
        &&& self.temp_count == other.temp_count
        &&& self.temp_stack == other.temp_stack
        &&& self.functions == other.functions
        &&& self.data_dependency == other.data_dependency
    }

    /// The call graph has room for the module: its nodes and edges are
    /// numbered with 32 bits, and there is a node for each function
    /// handle and at most one edge from each defined function to each
    /// node.
    pub open spec fn graph_fits(&self) -> bool {
        &&& self.module.function_handles@.len() < u32::MAX
        &&& self.module.function_defs@.len() * self.module.function_handles@.len() < u32::MAX
    }

    /// The call graph is the one of the module and its lifted functions.
    pub open spec fn has_call_graph(&self) -> bool {
        let n = self.module.function_handles@.len();
        &&& graph_weights(self.call_graph) == Seq::new(n, |h: int| handle_weight(self.ctx(), h))
        &&& graph_out(self.call_graph) == call_out(
            self.ctx(),
            self.functions@,
            key_order(self.ctx(), self.symbol_pool@.len()),
            self.module.function_defs@.len(),
        )
        &&& self.func_to_node@ == Seq::new(n, |h: int| (handle_qid(self.ctx(), h), h as usize))
    }

    /// The node of the function `f` of the module `m`, if a function
    /// handle names it.
    pub fn find_node(&self, m: ModuleId, f: FunId) -> (r: Option<usize>)
        requires
            self.wf(),
        ensures
            match r {
                Some(h) => node_of(
                    self.ctx(),
                    QualifiedId { module_id: m, id: f },
                    self.module.function_handles@.len(),
                ) == Some(h as int) && h < self.module.function_handles@.len(),
                None => node_of(
                    self.ctx(),
                    QualifiedId { module_id: m, id: f },
                    self.module.function_handles@.len(),
                ) is None,
            },
    {
        let ghost q = QualifiedId { module_id: m, id: f };
        let n = self.module.function_handles.len();
        let mut found: Option<usize> = None;
        let mut h: usize = 0;
        while h < n
            invariant
                h <= n,
                n == self.module.function_handles@.len(),
                self.wf(),
                q == (QualifiedId { module_id: m, id: f }),
                match found {
                    Some(x) => node_of(self.ctx(), q, h as nat) == Some(x as int) && x < h,
                    None => node_of(self.ctx(), q, h as nat) is None,
                },
            decreases n - h,
        {
            assert(self.module.function_handle_ok(h as int));
            let handle = &self.module.function_handles[h];
            if handle.module as usize == m.0 && self.ident_symbols[handle.name as usize] == f.0 {
                found = Some(h);
            }
            h += 1;
        }
        found
    }

    /// For each node, whether `code` calls it.
    fn called_nodes(&self, code: &Vec<Bytecode>) -> (r: Vec<bool>)
        requires
            self.wf(),
        ensures
            r@.len() == self.module.function_handles@.len(),
            forall|h: int|
                0 <= h < r@.len() ==> #[trigger] r@[h] == calls(
                    self.ctx(),
                    code_view(code@),
                    h,
                    code@.len(),
                ),
    {
        let n = self.module.function_handles.len();
        let ghost cv = code_view(code@);
        let mut called: Vec<bool> = Vec::new();
        let mut h: usize = 0;
        while h < n
            invariant
                h <= n,
                called@.len() == h,
                forall|j: int| 0 <= j < h ==> #[trigger] called@[j] == false,
            decreases n - h,
        {
            called.push(false);
            h += 1;
        }
        let mut k: usize = 0;
        while k < code.len()
            invariant
                k <= code.len(),
                self.wf(),
                cv == code_view(code@),
                n == self.module.function_handles@.len(),
                called@.len() == n,
                forall|j: int| 0 <= j < n ==> #[trigger] called@[j] == calls(self.ctx(), cv, j, k as nat),
            decreases code.len() - k,
        {
            assert(cv[k as int] == code@[k as int]@);
            let ghost before = called@;
            let callee: Option<usize> = match &code[k] {
                Bytecode::Call(_, _, op, _, _) => match op {
                    Operation::Function(m, f, _) => self.find_node(*m, *f),
                    _ => None,
                },
                _ => None,
            };
            match callee {
                Some(h) => {
                    called.set(h, true);
                },
                None => {},
            }
            assert forall|j: int| 0 <= j < n implies #[trigger] called@[j] == calls(
                self.ctx(),
                cv,
                j,
                (k + 1) as nat,
            ) by {
                assert(before[j] == calls(self.ctx(), cv, j, k as nat));
            }
            k += 1;
        }
        called
    }

    /// The handle that stands for the function with the name `s` in the
    /// module `m`.
    #[verifier::loop_isolation(false)]
    pub fn find_keyed(&self, m: usize, s: usize) -> (r: Option<usize>)
        requires
            self.wf(),
        ensures
            match r {
                Some(h) => keyed_node(
                    self.ctx(),
                    m as int,
                    s as int,
                    self.module.function_handles@.len(),
                ) == Some(h as int) && h < self.module.function_handles@.len(),
                None => keyed_node(
                    self.ctx(),
                    m as int,
                    s as int,
                    self.module.function_handles@.len(),
                ) is None,
            },
    {
        let module = self.module;
        let mut found: Option<usize> = None;
        let mut h: usize = 0;
        while h < module.function_handles.len()
            invariant
                h <= module.function_handles.len(),
                match found {
                    Some(x) => keyed_node(self.ctx(), m as int, s as int, h as nat) == Some(
                        x as int,
                    ) && x < h,
                    None => keyed_node(self.ctx(), m as int, s as int, h as nat) is None,
                },
            decreases module.function_handles.len() - h,
        {
            assert(module.function_handle_ok(h as int));
            let handle = module.function_handles[h];
            if handle.module as usize == m && self.ident_symbols[handle.name as usize].0 == s {
                found = Some(h);
            }
            h += 1;
        }
        found
    }

    /// The nodes of the call graph in the order of the functions they
    /// stand for.
    #[verifier::loop_isolation(false)]
    pub fn key_order_exec(&self) -> (r: Vec<usize>)
        requires
            self.wf(),
        ensures
            r@ == key_order(self.ctx(), self.symbol_pool@.len()),
            forall|i: int| 0 <= i < r@.len() ==> (#[trigger] r@[i]) < self.module.function_handles@.len(),
    {
        let ghost ctx = self.ctx();
        let modules = self.module.module_handles.len();
        let names = self.symbol_pool.len();
        let mut out: Vec<usize> = Vec::new();
        let mut m: usize = 0;
        assert(out@ =~= keys_by_module(ctx, names as nat, 0));
        while m < modules
            invariant
                m <= modules,
                out@ == keys_by_module(ctx, names as nat, m as nat),
            decreases modules - m,
        {
            let ghost start = out@;
            let mut s: usize = 0;
            assert(out@ =~= start + keys_by_symbol(ctx, m as int, 0));
            while s < names
                invariant
                    s <= names,
                    out@ == start + keys_by_symbol(ctx, m as int, s as nat),
                decreases names - s,
            {
                let ghost before = out@;
                match self.find_keyed(m, s) {
                    Some(h) => {
                        out.push(h);
                        assert(out@ =~= start + keys_by_symbol(ctx, m as int, (s + 1) as nat));
                    },
                    None => {},
                }
                s += 1;
            }
            m += 1;
        }
        proof {
            lemma_key_order_below(ctx, names as nat, modules as nat);
        }
        out
    }

    /// Builds the call graph of the module: a node for each function
    /// handle, and an edge from each defined function to each function
    /// that its code calls. Returns whether the graph has room for the
    /// module; where it has not, the lifter is left as it is.
    pub fn try_build_call_graph(&mut self) -> (ok: bool)
        requires
            old(self).wf(),
            old(self).functions@.len() == old(self).module.function_defs@.len(),
        ensures
            final(self).same_but_call_graph(old(self)),
            final(self).wf(),
            ok == old(self).graph_fits(),
            ok ==> final(self).has_call_graph(),
            !ok ==> final(self).call_graph == old(self).call_graph && final(self).func_to_node
                == old(self).func_to_node,
    {
        let module = self.module;
        let n = module.function_handles.len();
        let n_defs = module.function_defs.len();
        if n >= u32::MAX as usize {
            return false;
        }
        assert((n_defs as u128) * (n as u128) <= 0xffff_ffff_ffff_ffff * 0xffff_ffff_ffff_ffff)
            by (nonlinear_arith)
            requires
                n_defs <= 0xffff_ffff_ffff_ffff,
                n <= 0xffff_ffff_ffff_ffff,
        ;
        if (n_defs as u128) * (n as u128) >= u32::MAX as u128 {
            return false;
        }
        let ghost ctx = self.ctx();
        let mut graph = graph_new();
        let mut nodes: Vec<(QualifiedId<FunId>, usize)> = Vec::new();
        let mut h: usize = 0;
        while h < n
            invariant
                h <= n,
                n == module.function_handles@.len(),
                n < u32::MAX,
                module == self.module,
                self.wf(),
                ctx == self.ctx(),
                graph_weights(graph) == Seq::new(h as nat, |x: int| handle_weight(ctx, x)),
                graph_out(graph) == Seq::new(h as nat, |x: int| Seq::<usize>::empty()),
                nodes@ == Seq::new(h as nat, |x: int| (handle_qid(ctx, x), x as usize)),
            decreases n - h,
        {
            assert(module.function_handle_ok(h as int));
            let handle = &module.function_handles[h];
            let sym = self.symbol_at(handle.name);
            let m = handle.module as usize;
            let node = add_node(&mut graph, (m, sym.0));
            nodes.push((QualifiedId { module_id: ModuleId::new(m), id: FunId::new(sym) }, node));
            assert(graph_weights(graph) =~= Seq::new((h + 1) as nat, |x: int| handle_weight(ctx, x)));
            assert(graph_out(graph) =~= Seq::new((h + 1) as nat, |x: int| Seq::<usize>::empty()));
            assert(nodes@ =~= Seq::new((h + 1) as nat, |x: int| (handle_qid(ctx, x), x as usize)));
            h += 1;
        }
        let keys = self.key_order_exec();
        let ghost order = keys@;
        assert(graph_out(graph) =~= call_out(ctx, self.functions@, order, 0));
        proof {
            lemma_no_edges(n as nat);
            lemma_key_order_short(ctx, self.symbol_pool@.len());
        }
        let mut i: usize = 0;
        while i < n_defs
            invariant
                i <= n_defs,
                n == module.function_handles@.len(),
                n_defs == module.function_defs@.len(),
                n_defs * n < u32::MAX,
                module == self.module,
                self.wf(),
                ctx == self.ctx(),
                self.same_but_call_graph(old(self)),
                self.call_graph == old(self).call_graph,
                self.func_to_node == old(self).func_to_node,
                self.functions@.len() == n_defs,
                order == keys@,
                order == key_order(ctx, self.symbol_pool@.len()),
                order.len() <= n,
                forall|x: int| 0 <= x < order.len() ==> (#[trigger] order[x]) < n,
                graph_weights(graph) == Seq::new(n as nat, |x: int| handle_weight(ctx, x)),
                graph_out(graph) == call_out(ctx, self.functions@, order, i as nat),
                graph_out(graph).len() == n,
                total_edges(graph_out(graph)) <= i * n,
            decreases n_defs - i,
        {
            assert(module.function_def_ok(i as int));
            let defined = module.function_defs[i].function as usize;
            assert(module.function_handle_ok(defined as int));
            let handle = &module.function_handles[defined];
            let sym = self.symbol_at(handle.name);
            proof {
                lemma_node_of_handle(ctx, defined as int, n as nat);
            }
            let caller = match self.find_node(
                ModuleId::new(handle.module as usize),
                FunId::new(sym),
            ) {
                Some(c) => c,
                None => defined,
            };
            assert(caller == caller_node(ctx, i as int));
            let called = self.called_nodes(&self.functions[i].code);
            let ghost cv = code_view(self.functions@[i as int].code@);
            let ghost prev = graph_out(graph);
            let mut x: usize = 0;
            assert(prev.update(caller as int, called_desc(ctx, cv, order, 0) + prev[caller as int])
                =~= prev);
            assert((i + 1) * n <= n_defs * n && (i + 1) * n == i * n + n) by (nonlinear_arith)
                requires
                    i < n_defs,
            ;
            while x < keys.len()
                invariant
                    x <= keys.len(),
                    caller < n,
                    n == module.function_handles@.len(),
                    i * n + n < u32::MAX,
                    prev.len() == n,
                    called@.len() == n,
                    order == keys@,
                    order.len() <= n,
                    forall|y: int| 0 <= y < order.len() ==> (#[trigger] order[y]) < n,
                    forall|y: int| 0 <= y < n ==> #[trigger] called@[y] == calls(ctx, cv, y, cv.len()),
                    graph_weights(graph) == Seq::new(n as nat, |y: int| handle_weight(ctx, y)),
                    graph_out(graph) == prev.update(
                        caller as int,
                        called_desc(ctx, cv, order, x as nat) + prev[caller as int],
                    ),
                    total_edges(prev) <= i * n,
                    called_desc(ctx, cv, order, x as nat).len() <= x,
                decreases keys.len() - x,
            {
                proof {
                    lemma_total_edges_update(
                        prev,
                        caller as int,
                        called_desc(ctx, cv, order, x as nat) + prev[caller as int],
                    );
                }
                let h = keys[x];
                assert(h == order[x as int] && h < n);
                if called[h] {
                    let ghost before = graph_out(graph);
                    add_edge(&mut graph, caller, h);
                    assert(graph_out(graph) =~= prev.update(
                        caller as int,
                        called_desc(ctx, cv, order, (x + 1) as nat) + prev[caller as int],
                    )) by {
                        assert(seq![h] + (called_desc(ctx, cv, order, x as nat) + prev[caller as int])
                            =~= called_desc(ctx, cv, order, (x + 1) as nat) + prev[caller as int]);
                    }
                }
                x += 1;
            }
            proof {
                lemma_total_edges_update(
                    prev,
                    caller as int,
                    called_desc(ctx, cv, order, order.len()) + prev[caller as int],
                );
            }
            i += 1;
        }
        self.call_graph = graph;
        self.func_to_node = nodes;
        true
    }

    /// Builds the call graph of a module that the graph has room for.
    pub fn build_call_graph(&mut self)
        requires
            old(self).wf(),
            old(self).functions@.len() == old(self).module.function_defs@.len(),
            old(self).graph_fits(),
        ensures
            final(self).same_but_call_graph(old(self)),
            final(self).wf(),
            final(self).has_call_graph(),
    {
        let _ok = self.try_build_call_graph();
    }
}

/// A graph whose nodes have no outgoing edge has no edge.
pub proof fn lemma_no_edges(n: nat)
    ensures
        total_edges(Seq::new(n, |x: int| Seq::<usize>::empty())) == 0,
    decreases n,
{
    if n > 0 {
        lemma_no_edges((n - 1) as nat);
        assert(Seq::new(n, |x: int| Seq::<usize>::empty()).drop_last() =~= Seq::new(
            (n - 1) as nat,
            |x: int| Seq::<usize>::empty(),
        ));
    }
}

/// The callees are listed for each handle of the module.
pub proof fn lemma_call_out_len(
    ctx: LiftCtx,
    functions: Seq<FunctionInfo>,
    order: Seq<usize>,
    n: nat,
)
    requires
        ctx.module.bounds_ok(),
        n <= ctx.module.function_defs@.len(),
    ensures
        call_out(ctx, functions, order, n).len() == ctx.module.function_handles@.len(),
    decreases n,
{
    if n > 0 {
        lemma_call_out_len(ctx, functions, order, (n - 1) as nat);
        assert(ctx.module.function_def_ok(n - 1));
        lemma_node_of_handle(
            ctx,
            ctx.module.function_defs@[n - 1].function as int,
            ctx.module.function_handles@.len(),
        );
    }
}

/// The node that stands for a function names that function.
pub proof fn lemma_keyed_node_names(ctx: LiftCtx, m: int, s: int, n: nat)
    ensures
        keyed_node(ctx, m, s, n) matches Some(h) ==> ctx.module.function_handles@[h].module == m
            && ctx.idents[ctx.module.function_handles@[h].name as int].0 == s,
    decreases n,
{
    if n > 0 {
        lemma_keyed_node_names(ctx, m, s, (n - 1) as nat);
    }
}

/// The nodes of one module in the order of their names stand for
/// functions of that module with names among the first `k`, each node
/// once.
pub proof fn lemma_keys_by_symbol_distinct(ctx: LiftCtx, m: int, k: nat)
    ensures
        keys_by_symbol(ctx, m, k).no_duplicates(),
        forall|i: int|
            0 <= i < keys_by_symbol(ctx, m, k).len() ==> {
                let h = #[trigger] keys_by_symbol(ctx, m, k)[i];
                &&& h < ctx.module.function_handles@.len()
                &&& ctx.module.function_handles@[h as int].module == m
                &&& ctx.idents[ctx.module.function_handles@[h as int].name as int].0 < k
            },
    decreases k,
{
    if k > 0 {
        let n = ctx.module.function_handles@.len();
        assert(ctx.module.function_handles.len() == n);
        lemma_keys_by_symbol_distinct(ctx, m, (k - 1) as nat);
        lemma_keyed_node_names(ctx, m, k - 1, n);
        lemma_keyed_node_below(ctx, m, k - 1, n);
        let prev = keys_by_symbol(ctx, m, (k - 1) as nat);
        let now = keys_by_symbol(ctx, m, k);
        match keyed_node(ctx, m, k - 1, n) {
            Some(h) => {
                assert(now == prev.push(h as usize));
                assert forall|i: int| 0 <= i < now.len() implies {
                    let x = #[trigger] now[i];
                    &&& x < n
                    &&& ctx.module.function_handles@[x as int].module == m
                    &&& ctx.idents[ctx.module.function_handles@[x as int].name as int].0 < k
                } by {
                    if i < prev.len() {
                        assert(now[i] == prev[i]);
                    }
                }
                assert forall|i: int, j: int| 0 <= i < j < now.len() implies now[i] != now[j] by {
                    if j < prev.len() {
                        assert(prev[i] != prev[j]);
                    } else {
                        assert(now[i] == prev[i]);
                        assert(ctx.idents[ctx.module.function_handles@[prev[i] as int].name as int].0
                            < k - 1);
                    }
                }
            },
            None => {},
        }
    }
}

/// The nodes in the order of their functions stand for functions of the
/// first `k` modules, each node once.
pub proof fn lemma_keys_by_module_distinct(ctx: LiftCtx, names: nat, k: nat)
    ensures
        keys_by_module(ctx, names, k).no_duplicates(),
        forall|i: int|
            0 <= i < keys_by_module(ctx, names, k).len() ==> {
                let h = #[trigger] keys_by_module(ctx, names, k)[i];
                &&& h < ctx.module.function_handles@.len()
                &&& ctx.module.function_handles@[h as int].module < k
            },
    decreases k,
{
    if k > 0 {
        lemma_keys_by_module_distinct(ctx, names, (k - 1) as nat);
        lemma_keys_by_symbol_distinct(ctx, k - 1, names);
        let prev = keys_by_module(ctx, names, (k - 1) as nat);
        let here = keys_by_symbol(ctx, k - 1, names);
        let now = keys_by_module(ctx, names, k);
        assert(now == prev + here);
        assert forall|i: int| 0 <= i < now.len() implies {
            let h = #[trigger] now[i];
            &&& h < ctx.module.function_handles@.len()
            &&& ctx.module.function_handles@[h as int].module < k
        } by {
            if i < prev.len() {
                assert(now[i] == prev[i]);
            } else {
                assert(now[i] == here[i - prev.len()]);
            }
        }
        assert forall|i: int, j: int| 0 <= i < j < now.len() implies now[i] != now[j] by {
            if j < prev.len() {
                assert(prev[i] != prev[j]);
            } else if i >= prev.len() {
                assert(here[i - prev.len()] != here[j - prev.len()]);
            } else {
                let a = prev[i];
                let b = here[j - prev.len()];
                assert(ctx.module.function_handles@[a as int].module < k - 1);
                assert(ctx.module.function_handles@[b as int].module == k - 1);
            }
        }
    }
}

/// There are no more nodes in the order than the graph has.
pub proof fn lemma_key_order_short(ctx: LiftCtx, names: nat)
    ensures
        key_order(ctx, names).len() <= ctx.module.function_handles@.len(),
{
    let order = key_order(ctx, names);
    let n = ctx.module.function_handles@.len();
    lemma_keys_by_module_distinct(ctx, names, ctx.module.module_handles@.len());
    let ints = order.map(|i: int, h: usize| h as int);
    assert(ints.no_duplicates()) by {
        assert forall|i: int, j: int| 0 <= i < j < ints.len() implies ints[i] != ints[j] by {
            assert(order[i] != order[j]);
        }
    }
    ints.unique_seq_to_set();
    vstd::set_lib::lemma_int_range(0, n as int);
    let range = Set::new(|x: int| 0 <= x < n);
    assert(vstd::set_lib::set_int_range(0, n as int) =~= range);
    assert(ints.to_set().subset_of(range)) by {
        assert forall|x: int| ints.to_set().contains(x) implies range.contains(x) by {
            let i = choose|i: int| 0 <= i < ints.len() && ints[i] == x;
            assert(order[i] < n);
        }
    }
    vstd::set_lib::lemma_len_subset(ints.to_set(), range);
}

} // verus!
