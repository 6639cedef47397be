use vstd::prelude::*;
use vstd::string::StringExecFns;
use crate::move_ir::bytecode::code_view;
use crate::move_ir::data_dependency::{
    analysis, callee_of, resolve, try_data_dependency, DataDepent,
};
use crate::move_ir::bytecode::BytecodeV;
use crate::move_ir::file_format::CompiledModule;
use crate::move_ir::control_flow_graph::{block_of, lemma_block_partition};
use crate::move_ir::def_use::with_jumps;
use crate::move_ir::generate_bytecode::{
    init_state, is_vector_handle, lift_ctx_of, lift_function, pool_of, source_code, FunctionInfo,
    StacklessBytecodeGenerator,
};
use crate::move_ir::lowering::{lower_prefix, LabelMap};
use crate::move_ir::temps::{ends_flow, lemma_lifted_blocks_end};
use crate::move_ir::types::ModuleName;
use crate::move_ir::u256::U256;

verus! {

/// The sixteen hexadecimal digits, in lower case.
pub open spec fn hex_digit(d: nat) -> char {
    seq!['0', '1', '2', '3', '4', '5', '6', '7', '8', '9', 'a', 'b', 'c', 'd', 'e', 'f'][d as int]
}

/// `n` in hexadecimal, in lower case and without leading zeros; `0` for
/// zero.
pub open spec fn hex_digits(n: nat) -> Seq<char>
    decreases n,
{
    if n < 16 {
        seq![hex_digit(n)]
    } else {
        hex_digits(n / 16).push(hex_digit(n % 16))
    }
}

/// The name under which a module is known in a package: its address in
/// hexadecimal behind `0x`, two colons, and its own name.
pub open spec fn display_name(address: nat, name: Seq<char>) -> Seq<char> {
    "0x"@ + hex_digits(address) + "::"@ + name
}

/// `num::BigUint::to_str_radix` with radix 16, on the number that the
/// bytes of `a` spell, the most significant first: the number in
/// hexadecimal, in lower case and without leading zeros.
#[verifier::external_body]
pub(crate) fn to_hex(a: U256) -> (r: String)
    ensures
        r@ == hex_digits(a@),
{
    let mut bytes = a.hi.to_be_bytes().to_vec();
    bytes.extend_from_slice(&a.lo.to_be_bytes());
    num::BigUint::from_bytes_be(&bytes).to_str_radix(16)
}

impl<'a> StacklessBytecodeGenerator<'a> {
    /// The name of the module `m` as this lifter's pool spells it.
    pub open spec fn spec_module_display(&self, m: ModuleName) -> Seq<char> {
        display_name(m.address@, self.symbol_pool@[m.name.0 as int])
    }

    /// The name of the module `m`, one of this lifter's, in the form in
    /// which packages know modules.
    pub fn module_display(&self, m: &ModuleName) -> (r: String)
        requires
            m.name.0 < self.symbol_pool@.len(),
        ensures
            r@ == self.spec_module_display(*m),
    {
        let mut out = String::from_str("0x");
        let hex = to_hex(m.address);
        out.append(hex.as_str());
        out.append("::");
        out.append(self.symbol_pool.string(m.name).as_str());
        out
    }

    /// The name of the lifted module, in the form in which packages know
    /// modules.
    pub fn display_name(&self) -> (r: String)
        requires
            self.wf(),
        ensures
            r@ == self.spec_module_display(self.module_name),
    {
        proof {
            self.lemma_module_name_known();
        }
        self.module_display(&self.module_name)
    }
}

/// The modules of one run, each under its display name, in the order in
/// which they were added.
pub struct Packages<'a> {
    pub packages: Vec<(String, StacklessBytecodeGenerator<'a>)>,
}

/// The first among the first `n` of `names` that is `name`.
pub open spec fn first_named(names: Seq<Seq<char>>, name: Seq<char>, n: nat) -> Option<int>
    decreases n,
{
    if n == 0 {
        None
    } else {
        match first_named(names, name, (n - 1) as nat) {
            Some(i) => Some(i),
            None => if names[n - 1] == name {
                Some(n - 1)
            } else {
                None
            },
        }
    }
}

impl<'a> StacklessBytecodeGenerator<'a> {
    /// The names of the lifted functions, in order.
    pub open spec fn function_names(&self) -> Seq<Seq<char>> {
        Seq::new(self.functions@.len(), |i: int| self.functions@[i].name@)
    }

    /// Every function of the module is lifted.
    pub open spec fn lifted_all(&self) -> bool {
        self.functions@.len() == self.module.function_defs@.len()
    }

    /// The place of the first lifted function with the name `fname`.
    pub fn find_function(&self, fname: &String) -> (r: Option<usize>)
        ensures
            match r {
                Some(i) => first_named(self.function_names(), fname@, self.functions@.len())
                    == Some(i as int) && i < self.functions@.len(),
                None => first_named(self.function_names(), fname@, self.functions@.len()) is None,
            },
    {
        let mut i: usize = 0;
        while i < self.functions.len()
            invariant
                i <= self.functions.len(),
                first_named(self.function_names(), fname@, i as nat) is None,
            decreases self.functions.len() - i,
        {
            if self.functions[i].name == *fname {
                proof {
                    lemma_first_named_stays(
                        self.function_names(),
                        fname@,
                        (i + 1) as nat,
                        self.functions@.len(),
                    );
                }
                return Some(i);
            }
            i += 1;
        }
        None
    }
}

/// Once a name is found among the first `n`, it is the one found among
/// any more.
pub proof fn lemma_first_named_stays(names: Seq<Seq<char>>, name: Seq<char>, n: nat, m: nat)
    requires
        n <= m,
        first_named(names, name, n) is Some,
    ensures
        first_named(names, name, m) == first_named(names, name, n),
    decreases m,
{
    if n < m {
        lemma_first_named_stays(names, name, n, (m - 1) as nat);
    }
}

impl<'a> Packages<'a> {
    /// Every module is lifted whole, by a lifter in good order.
    pub open spec fn wf(&self) -> bool {
        forall|i: int|
            0 <= i < self.packages@.len() ==> (#[trigger] self.packages@[i]).1.wf()
                && self.packages@[i].1.lifted_all()
    }

    /// The place of the first module with the name `mname`.
    pub fn find_module(&self, mname: &String) -> (r: Option<usize>)
        ensures
            match r {
                Some(i) => first_named(self.names(), mname@, self.packages@.len()) == Some(
                    i as int,
                ) && i < self.packages@.len(),
                None => first_named(self.names(), mname@, self.packages@.len()) is None,
            },
    {
        let mut i: usize = 0;
        while i < self.packages.len()
            invariant
                i <= self.packages.len(),
                first_named(self.names(), mname@, i as nat) is None,
            decreases self.packages.len() - i,
        {
            if self.packages[i].0 == *mname {
                proof {
                    lemma_first_named_stays(
                        self.names(),
                        mname@,
                        (i + 1) as nat,
                        self.packages@.len(),
                    );
                }
                return Some(i);
            }
            i += 1;
        }
        None
    }

    /// The first function called `fname` of the first module called
    /// `mname`.
    pub fn get_function(&self, mname: &String, fname: &String) -> (r: Option<&FunctionInfo>)
        ensures
            match first_named(self.names(), mname@, self.packages@.len()) {
                Some(m) => match first_named(
                    self.packages@[m].1.function_names(),
                    fname@,
                    self.packages@[m].1.functions@.len(),
                ) {
                    Some(f) => r == Some(&self.packages@[m].1.functions@[f]),
                    None => r is None,
                },
                None => r is None,
            },
    {
        match self.find_module(mname) {
            Some(m) => {
                match self.packages[m].1.find_function(fname) {
                    Some(f) => Some(&self.packages[m].1.functions[f]),
                    None => None,
                }
            },
            None => None,
        }
    }

    /// The names of the modules, in order.
    pub open spec fn names(&self) -> Seq<Seq<char>> {
        Seq::new(self.packages@.len(), |i: int| self.packages@[i].0@)
    }

    pub fn get_all_stbgr(&self) -> (r: &Vec<(String, StacklessBytecodeGenerator<'a>)>)
        ensures
            r == self.packages,
    {
        &self.packages
    }

    /// The place of the first module with the name `mname`.
    pub fn find(&self, mname: &String) -> (r: Option<usize>)
        ensures
            match r {
                Some(i) => crate::scanner::result::is_first(self.names(), mname@, i as int),
                None => !self.names().contains(mname@),
            },
    {
        let mut i: usize = 0;
        while i < self.packages.len()
            invariant
                i <= self.packages.len(),
                forall|j: int| 0 <= j < i ==> self.names()[j] != mname@,
            decreases self.packages.len() - i,
        {
            if self.packages[i].0 == *mname {
                assert(self.names()[i as int] == mname@);
                return Some(i);
            }
            i += 1;
        }
        None
    }

    /// The first module with the name `mname`.
    pub fn get_stbgr_by_mname(&self, mname: String) -> (r: Option<&StacklessBytecodeGenerator<'a>>)
        ensures
            match r {
                Some(g) => exists|i: int|
                    crate::scanner::result::is_first(self.names(), mname@, i) && *g
                        == self.packages@[i].1,
                None => !self.names().contains(mname@),
            },
    {
        match self.find(&mname) {
            Some(i) => Some(&self.packages[i].1),
            None => None,
        }
    }
}

/// The name under which a package knows the module `cm`.
pub open spec fn module_display_of(cm: &CompiledModule) -> Seq<char> {
    let h = cm.module_handles@[cm.self_module_handle_idx as int];
    display_name(cm.address_identifiers@[h.address as int]@, cm.identifiers@[h.name as int]@)
}

/// The module can be lifted: its indices are in range, each of its
/// functions can be lifted, and the call graph has room for it.
pub open spec fn liftable(cm: &CompiledModule) -> bool {
    &&& cm.bounds_ok()
    &&& forall|f: int|
        0 <= f < cm.function_defs@.len() ==> lift_function(lift_ctx_of(cm), f) is Some
    &&& cm.function_handles@.len() < u32::MAX
    &&& cm.function_defs@.len() * cm.function_handles@.len() < u32::MAX
}

/// The lifter names the modules that the handles of `cm` name, and, where
/// none of them is the vector module, that module at address 1 behind
/// them.
pub open spec fn names_modules_of(g: &StacklessBytecodeGenerator, cm: &CompiledModule) -> bool {
    if exists|i: int| 0 <= i < cm.module_handles@.len() && is_vector_handle(cm, i) {
        g.module_names@.len() == cm.module_handles@.len()
    } else {
        &&& g.module_names@.len() == cm.module_handles@.len() + 1
        &&& g.vec_module_id.0 == cm.module_handles@.len()
        &&& g.module_names@[cm.module_handles@.len() as int].address@ == 1
    }
}

/// The lifter `g` holds the module `cm` lifted whole: every function as
/// lowering defines it, with its control-flow graph where it has a body,
/// and the call graph of the module.
#[verifier::opaque]
pub open spec fn is_lifted(g: &StacklessBytecodeGenerator, cm: &CompiledModule) -> bool {
    &&& *g.module == *cm
    &&& g.wf()
    &&& g.ctx() == lift_ctx_of(cm)
    &&& g.symbol_pool@ == pool_of(cm)
    &&& names_modules_of(g, cm)
    &&& g.lifted_all()
    &&& g.has_call_graph()
    &&& forall|f: int|
        0 <= f < g.functions@.len() ==> {
            let function = #[trigger] g.functions@[f];
            &&& lift_function(lift_ctx_of(cm), f) is Some
            &&& function.lifted_code(lift_function(lift_ctx_of(cm), f)->0)
            &&& function.idx == f
            &&& function.name@ == g.spec_function_name(f)
            &&& if g.has_body(f) {
                function.cfg matches Some(graph) && graph.is_graph_of(code_view(function.code@))
            } else {
                function.cfg is None
            }
        }
}

/// The names of the modules `cms` at the places `places`.
pub open spec fn names_at(cms: Seq<CompiledModule>, places: Seq<int>) -> Seq<Seq<char>> {
    Seq::new(places.len(), |i: int| module_display_of(&cms[places[i]]))
}

/// Which of the first `n` of `cms` a package holds at each of its places:
/// a module takes the place of an earlier module of its name, and goes
/// behind all others where there is none.
pub open spec fn placed(cms: Seq<CompiledModule>, n: nat) -> Seq<int>
    decreases n,
{
    if n == 0 {
        Seq::empty()
    } else {
        let prev = placed(cms, (n - 1) as nat);
        let names = names_at(cms, prev);
        match first_named(names, module_display_of(&cms[n - 1]), names.len()) {
            Some(i) => prev.update(i, n - 1),
            None => prev.push(n - 1),
        }
    }
}

/// The entry holds the module at `place`, one of the first `n` of `cms`,
/// lifted whole, under its name.
pub open spec fn holds_module(
    entry: (String, StacklessBytecodeGenerator),
    cms: Seq<CompiledModule>,
    place: int,
    n: nat,
) -> bool {
    &&& 0 <= place < n
    &&& entry.0@ == module_display_of(&cms[place])
    &&& is_lifted(&entry.1, &cms[place])
}

impl<'a> Packages<'a> {
    /// The package holds the first `n` of `cms`, each lifted whole, under
    /// their names.
    pub open spec fn lifted_from(&self, cms: Seq<CompiledModule>, n: nat) -> bool {
        let places = placed(cms, n);
        &&& self.packages@.len() == places.len()
        &&& forall|i: int|
            0 <= i < places.len() ==> holds_module(#[trigger] self.packages@[i], cms, places[i], n)
    }

    /// Records the lifter `g` of the module `cms[c]` under the module's
    /// name.
    fn place(
        &mut self,
        name: String,
        g: StacklessBytecodeGenerator<'a>,
        Ghost(cms): Ghost<Seq<CompiledModule>>,
        c: usize,
    )
        requires
            c < cms.len(),
            old(self).wf(),
            old(self).lifted_from(cms, c as nat),
            name@ == module_display_of(&cms[c as int]),
            g.wf(),
            g.lifted_all(),
            is_lifted(&g, &cms[c as int]),
        ensures
            final(self).wf(),
            final(self).lifted_from(cms, (c + 1) as nat),
    {
        let ghost prev = placed(cms, c as nat);
        let ghost before = self.packages@;
        assert(self.names() =~= names_at(cms, prev));
        match self.find_module(&name) {
            Some(i) => {
                self.packages[i] = (name, g);
                assert(placed(cms, (c + 1) as nat) == prev.update(i as int, c as int));
            },
            None => {
                self.packages.push((name, g));
                assert(placed(cms, (c + 1) as nat) == prev.push(c as int));
            },
        }
        let ghost places = placed(cms, (c + 1) as nat);
        assert(self.packages@.len() == places.len());
        assert forall|i: int| 0 <= i < places.len() implies holds_module(
            #[trigger] self.packages@[i],
            cms,
            places[i],
            (c + 1) as nat,
        ) by {
            if i < before.len() && self.packages@[i] == before[i] {
                assert(holds_module(before[i], cms, prev[i], c as nat));
            }
        }
        assert forall|i: int| 0 <= i < self.packages@.len() implies (#[trigger] self.packages@[i]).1.wf()
            && self.packages@[i].1.lifted_all() by {
            if i < before.len() && self.packages@[i] == before[i] {
                assert(before[i].1.wf());
            }
        }
    }

    /// Lifts the modules `cms` in order. `None` where one of them cannot
    /// be lifted.
    pub fn try_lift(cms: &'a Vec<CompiledModule>) -> (r: Option<Self>)
        ensures
            r is Some <==> forall|c: int| 0 <= c < cms@.len() ==> liftable(#[trigger] &cms@[c]),
            r matches Some(p) ==> p.wf() && p.lifted_from(cms@, cms@.len()),
    {
        let mut packages: Packages<'a> = Packages { packages: Vec::new() };
        let mut c: usize = 0;
        while c < cms.len()
            invariant
                c <= cms.len(),
                packages.wf(),
                packages.lifted_from(cms@, c as nat),
                forall|x: int| 0 <= x < c ==> liftable(#[trigger] &cms@[x]),
            decreases cms.len() - c,
        {
            match lift_module(&cms[c]) {
                Some((name, g)) => {
                    packages.place(name, g, Ghost(cms@), c);
                },
                None => {
                    return None;
                },
            }
            c += 1;
        }
        Some(packages)
    }
}

/// Lifts one module whole: its functions, their control-flow graphs, and
/// the call graph. `None` where the module cannot be lifted.
/// In a lifted module a function has a control-flow graph exactly if its
/// definition is not native, the graph is that of its code, and a native
/// function has no code.
pub proof fn lemma_graph_unless_native(
    g: &StacklessBytecodeGenerator,
    cm: &CompiledModule,
    f: int,
)
    requires
        is_lifted(g, cm),
        0 <= f < g.functions@.len(),
    ensures
        f < cm.function_defs@.len(),
        g.functions@[f].cfg is None <==> cm.function_defs@[f].spec_is_native(),
        cm.function_defs@[f].spec_is_native() ==> g.functions@[f].code@.len() == 0,
        g.functions@[f].cfg matches Some(graph) ==> graph.is_graph_of(
            code_view(g.functions@[f].code@),
        ),
{
    reveal(is_lifted);
    let function = g.functions@[f];
    let l = lift_function(lift_ctx_of(cm), f)->0;
    assert(function.lifted_code(l));
    if cm.function_defs@[f].spec_is_native() {
        let ctx = lift_ctx_of(cm);
        let src = source_code(ctx, f);
        assert(src.len() == 0);
        assert(lower_prefix(ctx, LabelMap::build(src, 0), f, src, 0, init_state(ctx, f)) == Some(
            init_state(ctx, f),
        ));
        assert(with_jumps(Seq::<BytecodeV>::empty(), 0).len() == 0);
        assert(code_view(function.code@).len() == 0);
    }
}

/// In a lifted module the basic blocks of the control-flow graph of a
/// function that is not native part its code: every basic block holds a
/// range of offsets that is not empty and lies within the code, and every
/// offset of the code lies in the range of one block and of no other.
pub proof fn lemma_lifted_blocks_part(
    g: &StacklessBytecodeGenerator,
    cm: &CompiledModule,
    f: int,
)
    requires
        is_lifted(g, cm),
        0 <= f < g.functions@.len(),
        !cm.function_defs@[f].spec_is_native(),
    ensures
        g.functions@[f].cfg is Some,
        ({
            let cfg = g.functions@[f].cfg->0;
            let code = code_view(g.functions@[f].code@);
            &&& forall|b: int|
                2 <= b < cfg.blocks@.len() ==> {
                    let content = (#[trigger] cfg.blocks@[b]).content;
                    &&& content is Basic
                    &&& content->lower <= content->upper < code.len()
                }
            &&& forall|k: int|
                0 <= k < code.len() ==> 2 <= #[trigger] block_of(code, k) < cfg.blocks@.len()
                    && cfg.holds_offset(block_of(code, k) as int, k)
            &&& forall|b: int, k: int|
                2 <= b < cfg.blocks@.len() && 0 <= k < code.len() && #[trigger] cfg.holds_offset(
                    b,
                    k,
                ) ==> b == block_of(code, k)
        }),
{
    lemma_graph_unless_native(g, cm, f);
    let cfg = g.functions@[f].cfg->0;
    let code = code_view(g.functions@[f].code@);
    lemma_block_partition(&cfg, code);
    assert forall|k: int| 0 <= k < code.len() implies 2 <= #[trigger] block_of(code, k)
        < cfg.blocks@.len() && cfg.holds_offset(block_of(code, k) as int, k) by {
        let b = block_of(code, k) as int;
        assert(cfg.holds_offset(b, k) <==> block_of(code, k) == b);
    }
}

/// In a lifted module every basic block of the control-flow graph of a
/// function whose source ends in a return, an abort or an unconditional
/// branch ends in a return, an abort, a jump or a branch.
pub proof fn lemma_lifted_blocks_end_flow(
    g: &StacklessBytecodeGenerator,
    cm: &CompiledModule,
    f: int,
    b: int,
)
    requires
        is_lifted(g, cm),
        0 <= f < g.functions@.len(),
        source_code(lift_ctx_of(cm), f).len() > 0,
        ends_flow(source_code(lift_ctx_of(cm), f).last()),
        g.functions@[f].cfg matches Some(cfg) && 2 <= b < cfg.blocks@.len(),
    ensures
        ({
            let content = g.functions@[f].cfg->0.blocks@[b].content;
            &&& content is Basic
            &&& content->upper < g.functions@[f].code@.len()
            &&& g.functions@[f].code@[content->upper as int]@.is_branch()
        }),
{
    lemma_graph_unless_native(g, cm, f);
    reveal(is_lifted);
    lemma_lifted_blocks_end(lift_ctx_of(cm), f, g.functions@[f], b);
}

pub fn lift_module<'a>(cm: &'a CompiledModule) -> (r: Option<
    (String, StacklessBytecodeGenerator<'a>),
>)
    ensures
        r is Some <==> liftable(cm),
        r matches Some(x) ==> is_lifted(&x.1, cm) && x.1.wf() && x.1.lifted_all() && x.0@
            == module_display_of(cm),
{
    if !cm.check_bounds() {
        return None;
    }
    let mut g = StacklessBytecodeGenerator::new(cm);
    let ghost g0 = g;
    assert(names_modules_of(&g0, cm));
    if !g.try_generate_function() {
        return None;
    }
    let ghost g1 = g;
    g.get_control_flow_graph();
    let ghost g2 = g;
    if !g.try_build_call_graph() {
        return None;
    }
    proof {
        assert(g.ctx() == lift_ctx_of(cm));
        assert(g.symbol_pool == g0.symbol_pool);
        assert(g.module_names == g0.module_names);
        assert(g.vec_module_id == g0.vec_module_id);
        assert(names_modules_of(&g, cm));
        assert forall|f: int| 0 <= f < g.functions@.len() implies {
            let function = #[trigger] g.functions@[f];
            &&& lift_function(lift_ctx_of(cm), f) is Some
            &&& function.lifted_code(lift_function(lift_ctx_of(cm), f)->0)
            &&& function.idx == f
            &&& function.name@ == g.spec_function_name(f)
            &&& if g.has_body(f) {
                function.cfg matches Some(graph) && graph.is_graph_of(code_view(function.code@))
            } else {
                function.cfg is None
            }
        } by {
            let l = lift_function(lift_ctx_of(cm), f)->0;
            assert(g1.functions@[0 + f].lifted_as(l));
            assert(crate::move_ir::build_graphs::same_but_cfg(g2.functions@[f], g1.functions@[f]));
            assert(g.functions@[f] == g2.functions@[f]);
            assert(g2.has_body(f) == g.has_body(f));
            assert(g1.has_body(f) == g.has_body(f));
        }
        reveal(is_lifted);
    }
    let name = g.display_name();
    proof {
        let i = cm.self_module_handle_idx as int;
        assert(cm.module_handle_ok(i));
        let k = cm.module_handles@[i].name as int;
        assert(g.holds(g.ident_symbols@[k], cm.identifiers@[k]@));
    }
    Some((name, g))
}

/// The two lifters agree on all but the tables of dependency trees.
pub open spec fn same_but_table(a: &StacklessBytecodeGenerator, b: &StacklessBytecodeGenerator) -> bool {
    &&& a.module == b.module
    &&& a.module_name == b.module_name
    &&& a.temp_count == b.temp_count
    &&& a.temp_stack == b.temp_stack
    &&& a.symbol_pool == b.symbol_pool
    &&& a.ident_symbols == b.ident_symbols
    &&& a.module_names == b.module_names
    &&& a.vec_module_id == b.vec_module_id
    &&& a.vec_funs == b.vec_funs
    &&& a.func_to_node == b.func_to_node
    &&& a.call_graph == b.call_graph
    &&& a.functions == b.functions
}

/// The two entries have the same name and agree on all but the tables of
/// dependency trees.
pub open spec fn same_entry(
    a: (String, StacklessBytecodeGenerator),
    b: (String, StacklessBytecodeGenerator),
) -> bool {
    a.0 == b.0 && same_but_table(&a.1, &b.1)
}

/// The function at place `f` of the module at place `i` can be analysed
/// one call deep.
pub open spec fn can_analyse(p: &Packages, i: int, f: int) -> bool {
    analysis(p, &p.packages@[i].1, f, 1, p.packages@[i].1.functions@[f].code@.len()) is Some
}

/// The module at place `i` holds, for its function at place `f`, the
/// table of dependency trees that an analysis one call deep yields.
pub open spec fn table_ok(p: &Packages, i: int, f: int) -> bool {
    &&& can_analyse(p, i, f)
    &&& Some(p.packages@[i].1.data_dependency@[f]@) == analysis(
        p,
        &p.packages@[i].1,
        f,
        1,
        p.packages@[i].1.functions@[f].code@.len(),
    )
}

/// The modules can be built into a package: each of them can be lifted,
/// and every function of the package that they are lifted to can be
/// analysed.
pub open spec fn buildable(cms: Seq<CompiledModule>) -> bool {
    &&& forall|c: int| 0 <= c < cms.len() ==> liftable(#[trigger] &cms[c])
    &&& forall|q: Packages|
        q.wf() && #[trigger] q.lifted_from(cms, cms.len()) ==> q.analysable()
}

impl<'a> Packages<'a> {
    /// The two packages hold the same modules but for the tables of
    /// dependency trees.
    pub open spec fn same_but_tables(&self, other: &Self) -> bool {
        &&& self.packages@.len() == other.packages@.len()
        &&& forall|i: int|
            0 <= i < self.packages@.len() ==> same_entry(
                #[trigger] self.packages@[i],
                other.packages@[i],
            )
    }

    /// Every function of every module can be analysed one call deep.
    pub open spec fn analysable(&self) -> bool {
        forall|i: int, f: int|
            0 <= i < self.packages@.len() && 0 <= f < self.packages@[i].1.functions@.len()
                ==> #[trigger] can_analyse(self, i, f)
    }

    /// Every module holds the table of dependency trees of each of its
    /// functions.
    pub open spec fn analysed(&self) -> bool {
        &&& forall|i: int|
            0 <= i < self.packages@.len() ==> (#[trigger] self.packages@[i]).1.data_dependency@.len()
                == self.packages@[i].1.functions@.len()
        &&& forall|i: int, f: int|
            0 <= i < self.packages@.len() && 0 <= f < self.packages@[i].1.functions@.len()
                ==> #[trigger] table_ok(self, i, f)
    }
}

/// The analysis does not read the tables of dependency trees: packages
/// that agree on all else yield the same trees.
pub proof fn lemma_analysis_same(
    pa: &Packages,
    pb: &Packages,
    g1: &StacklessBytecodeGenerator,
    g2: &StacklessBytecodeGenerator,
    f: int,
    depth: nat,
    n: nat,
)
    requires
        pa.same_but_tables(pb),
        same_but_table(g1, g2),
    ensures
        analysis(pa, g1, f, depth, n) == analysis(pb, g2, f, depth, n),
    decreases depth, 1nat, n,
{
    if n > 0 {
        lemma_analysis_same(pa, pb, g1, g2, f, depth, (n - 1) as nat);
        let instr = code_view(g1.functions@[f].code@)[n - 1];
        lemma_callee_same(pa, pb, g1, g2, instr, depth);
    }
}

pub proof fn lemma_callee_same(
    pa: &Packages,
    pb: &Packages,
    g1: &StacklessBytecodeGenerator,
    g2: &StacklessBytecodeGenerator,
    instr: BytecodeV,
    depth: nat,
)
    requires
        pa.same_but_tables(pb),
        same_but_table(g1, g2),
    ensures
        callee_of(pa, g1, instr, depth) == callee_of(pb, g2, instr, depth),
    decreases depth, 0nat, 0nat,
{
    lemma_resolve_same(pa, pb, g1, g2, instr);
    if depth > 0 {
        match resolve(pa, g1, instr) {
            None => {},
            Some((m, f)) => {
                lemma_first_named_bound(pa.names(), g1.spec_module_display(
                    g1.module_names@[instr->Call_2->Function_0.0 as int],
                ), pa.packages@.len());
                assert(same_entry(pa.packages@[m], pb.packages@[m]));
                let h1 = &pa.packages@[m].1;
                let h2 = &pb.packages@[m].1;
                let n = code_view(h1.functions@[f].code@).len();
                lemma_analysis_same(pa, pb, h1, h2, f, (depth - 1) as nat, n);
            },
        }
    }
}

/// A name that is found stands at a place of the sequence.
pub proof fn lemma_first_named_bound(names: Seq<Seq<char>>, name: Seq<char>, n: nat)
    requires
        n <= names.len(),
    ensures
        first_named(names, name, n) matches Some(i) ==> 0 <= i < n && names[i] == name,
    decreases n,
{
    if n > 0 {
        lemma_first_named_bound(names, name, (n - 1) as nat);
    }
}

pub proof fn lemma_resolve_same(
    pa: &Packages,
    pb: &Packages,
    g1: &StacklessBytecodeGenerator,
    g2: &StacklessBytecodeGenerator,
    instr: BytecodeV,
)
    requires
        pa.same_but_tables(pb),
        same_but_table(g1, g2),
    ensures
        resolve(pa, g1, instr) == resolve(pb, g2, instr),
{
    assert(pa.names() =~= pb.names()) by {
        assert forall|i: int| 0 <= i < pa.packages@.len() implies pa.names()[i] == pb.names()[i] by {
            assert(same_entry(pa.packages@[i], pb.packages@[i]));
        }
    }
    match instr {
        BytecodeV::Call(_, _, crate::move_ir::bytecode::OperationV::Function(mid, fid, _), _, _) => {
            if mid.0 < g1.module_names@.len() {
                let name = g1.spec_module_display(g1.module_names@[mid.0 as int]);
                lemma_first_named_bound(pa.names(), name, pa.packages@.len());
                match first_named(pa.names(), name, pa.packages@.len()) {
                    Some(m) => {
                        assert(same_entry(pa.packages@[m], pb.packages@[m]));
                        assert(pa.packages@[m].1.function_names() =~= pb.packages@[m].1.function_names());
                    },
                    None => {},
                }
            }
        },
        _ => {},
    }
}

impl<'a> Packages<'a> {
    /// The tables of dependency trees of the functions of the module at
    /// place `i`; `None` where one of them cannot be analysed.
    fn analyse_module(&self, i: usize) -> (r: Option<Vec<DataDepent>>)
        requires
            self.wf(),
            i < self.packages@.len(),
        ensures
            r is Some <==> forall|f: int|
                0 <= f < self.packages@[i as int].1.functions@.len() ==> #[trigger] can_analyse(
                    self,
                    i as int,
                    f,
                ),
            r matches Some(tables) ==> tables@.len() == self.packages@[i as int].1.functions@.len()
                && forall|f: int|
                0 <= f < tables@.len() ==> Some((#[trigger] tables@[f])@) == analysis(
                    self,
                    &self.packages@[i as int].1,
                    f,
                    1,
                    self.packages@[i as int].1.functions@[f].code@.len(),
                ),
    {
        let g = &self.packages[i].1;
        let mut tables: Vec<DataDepent> = Vec::new();
        let mut f: usize = 0;
        while f < g.functions.len()
            invariant
                f <= g.functions.len(),
                self.wf(),
                i < self.packages@.len(),
                g == &self.packages@[i as int].1,
                tables@.len() == f,
                forall|x: int| 0 <= x < f ==> #[trigger] can_analyse(self, i as int, x),
                forall|x: int|
                    0 <= x < f ==> Some((#[trigger] tables@[x])@) == analysis(
                        self,
                        g,
                        x,
                        1,
                        g.functions@[x].code@.len(),
                    ),
            decreases g.functions.len() - f,
        {
            match try_data_dependency(self, g, f, 1) {
                Some(d) => {
                    tables.push(d);
                },
                None => {
                    assert(!can_analyse(self, i as int, f as int));
                    return None;
                },
            }
            f += 1;
        }
        Some(tables)
    }

    /// Computes the dependency trees of every function of every module,
    /// one call deep, and stores them with the modules. Returns whether
    /// every function could be analysed; where one could not, the package
    /// is left as it is.
    pub fn try_analyse(&mut self) -> (ok: bool)
        requires
            old(self).wf(),
        ensures
            final(self).wf(),
            final(self).same_but_tables(old(self)),
            ok == old(self).analysable(),
            ok ==> final(self).analysed(),
            !ok ==> final(self).packages == old(self).packages,
    {
        let n = self.packages.len();
        let mut all: Vec<Vec<DataDepent>> = Vec::new();
        let mut i: usize = 0;
        while i < n
            invariant
                i <= n,
                n == self.packages@.len(),
                self.wf(),
                self.packages == old(self).packages,
                all@.len() == i,
                forall|x: int, f: int|
                    0 <= x < i && 0 <= f < self.packages@[x].1.functions@.len()
                        ==> #[trigger] can_analyse(self, x, f),
                forall|x: int|
                    0 <= x < i ==> (#[trigger] all@[x])@.len()
                        == self.packages@[x].1.functions@.len(),
                forall|x: int, f: int|
                    0 <= x < i && 0 <= f < self.packages@[x].1.functions@.len() ==> Some(
                        (#[trigger] all@[x]@[f])@,
                    ) == analysis(
                        self,
                        &self.packages@[x].1,
                        f,
                        1,
                        self.packages@[x].1.functions@[f].code@.len(),
                    ),
            decreases n - i,
        {
            match self.analyse_module(i) {
                Some(tables) => {
                    all.push(tables);
                },
                None => {
                    return false;
                },
            }
            i += 1;
        }
        assert(self.same_but_tables(old(self))) by {
            assert forall|x: int| 0 <= x < self.packages@.len() implies same_entry(
                #[trigger] self.packages@[x],
                old(self).packages@[x],
            ) by {}
        }
        let mut k: usize = 0;
        while k < n
            invariant
                k <= n,
                n == self.packages@.len(),
                n == old(self).packages@.len(),
                all@.len() == n,
                self.same_but_tables(old(self)),
                forall|x: int|
                    0 <= x < k ==> (#[trigger] self.packages@[x]).1.data_dependency@.len()
                        == old(self).packages@[x].1.functions@.len(),
                forall|x: int, f: int|
                    0 <= x < k && 0 <= f < old(self).packages@[x].1.functions@.len() ==> Some(
                        (#[trigger] self.packages@[x].1.data_dependency@[f])@,
                    ) == analysis(
                        old(self),
                        &old(self).packages@[x].1,
                        f,
                        1,
                        old(self).packages@[x].1.functions@[f].code@.len(),
                    ),
                forall|x: int|
                    k <= x < n ==> (#[trigger] all@[x])@.len()
                        == old(self).packages@[x].1.functions@.len(),
                forall|x: int, f: int|
                    k <= x < n && 0 <= f < old(self).packages@[x].1.functions@.len() ==> Some(
                        (#[trigger] all@[x]@[f])@,
                    ) == analysis(
                        old(self),
                        &old(self).packages@[x].1,
                        f,
                        1,
                        old(self).packages@[x].1.functions@[f].code@.len(),
                    ),
            decreases n - k,
        {
            let ghost before = self.packages@;
            let mut tables: Vec<DataDepent> = Vec::new();
            std::mem::swap(&mut all[k], &mut tables);
            self.packages[k].1.data_dependency = tables;
            proof {
                assert forall|x: int| 0 <= x < n implies same_entry(
                    #[trigger] self.packages@[x],
                    old(self).packages@[x],
                ) by {
                    assert(same_entry(before[x], old(self).packages@[x]));
                }
            }
            k += 1;
        }
        proof {
            assert forall|x: int| 0 <= x < n implies (#[trigger] self.packages@[x]).1.wf()
                && self.packages@[x].1.lifted_all() by {
                assert(same_entry(self.packages@[x], old(self).packages@[x]));
                assert(old(self).packages@[x].1.wf());
                lemma_wf_same(&old(self).packages@[x].1, &self.packages@[x].1);
            }
            assert forall|x: int, f: int|
                0 <= x < n && 0 <= f < self.packages@[x].1.functions@.len() implies #[trigger] table_ok(
                self,
                x,
                f,
            ) by {
                assert(same_entry(self.packages@[x], old(self).packages@[x]));
                assert(can_analyse(old(self), x, f));
                lemma_analysis_same(
                    self,
                    old(self),
                    &self.packages@[x].1,
                    &old(self).packages@[x].1,
                    f,
                    1,
                    self.packages@[x].1.functions@[f].code@.len(),
                );
            }
            assert forall|x: int|
                0 <= x < self.packages@.len() implies (#[trigger] self.packages@[x]).1.data_dependency@.len()
                == self.packages@[x].1.functions@.len() by {
                assert(same_entry(self.packages@[x], old(self).packages@[x]));
            }
        }
        true
    }
}

/// A lifter stays in good order when its tables of dependency trees
/// change.
pub proof fn lemma_wf_same(a: &StacklessBytecodeGenerator, b: &StacklessBytecodeGenerator)
    requires
        a.wf(),
        same_but_table(b, a),
    ensures
        b.wf(),
        a.lifted_all() ==> b.lifted_all(),
{
    assert forall|i: int| 0 <= i < b.ident_symbols@.len() implies b.holds(
        #[trigger] b.ident_symbols@[i],
        b.module.identifiers@[i]@,
    ) by {
        assert(a.holds(a.ident_symbols@[i], a.module.identifiers@[i]@));
    }
}

/// A lifter that holds a module lifted whole still does when its tables
/// of dependency trees change.
pub proof fn lemma_is_lifted_same(
    a: &StacklessBytecodeGenerator,
    b: &StacklessBytecodeGenerator,
    cm: &CompiledModule,
)
    requires
        is_lifted(a, cm),
        same_but_table(b, a),
    ensures
        is_lifted(b, cm),
{
    reveal(is_lifted);
    lemma_wf_same(a, b);
    assert forall|f: int| 0 <= f < b.functions@.len() implies b.has_body(f) == a.has_body(f) by {}
}

impl<'a> Packages<'a> {
    /// Lifts the modules `cms` in order and computes the dependency trees
    /// of all their functions. `None` where a module cannot be lifted or
    /// a function cannot be analysed.
    pub fn try_new(cms: &'a Vec<CompiledModule>) -> (r: Option<Self>)
        ensures
            r is Some <==> buildable(cms@),
            r matches Some(p) ==> p.wf() && p.lifted_from(cms@, cms@.len()) && p.analysed(),
    {
        match Self::try_lift(cms) {
            Some(mut p) => {
                let ghost q = p;
                if p.try_analyse() {
                    proof {
                        assert forall|x: Packages|
                            x.wf() && #[trigger] x.lifted_from(cms@, cms@.len()) implies x.analysable() by {
                            crate::move_ir::agreement::lemma_analysable_decided(&x, &q, cms@);
                        }
                        let places = placed(cms@, cms@.len());
                        assert forall|i: int| 0 <= i < places.len() implies holds_module(
                            #[trigger] p.packages@[i],
                            cms@,
                            places[i],
                            cms@.len(),
                        ) by {
                            assert(holds_module(q.packages@[i], cms@, places[i], cms@.len()));
                            assert(same_entry(p.packages@[i], q.packages@[i]));
                            lemma_is_lifted_same(
                                &q.packages@[i].1,
                                &p.packages@[i].1,
                                &cms@[places[i]],
                            );
                        }
                    }
                    Some(p)
                } else {
                    None
                }
            },
            None => None,
        }
    }

    /// The package of the modules `cms`, all of which can be lifted and
    /// analysed: each lifted whole, with the dependency trees of all its
    /// functions.
    pub fn new(cms: &'a Vec<CompiledModule>) -> (r: Self)
        requires
            buildable(cms@),
        ensures
            r.wf(),
            r.lifted_from(cms@, cms@.len()),
            r.analysed(),
    {
        match Self::try_new(cms) {
            Some(p) => p,
            None => {
                proof {
                    assert(false);
                }
                Packages { packages: Vec::new() }
            },
        }
    }
}

/// A name that is not the first of any place is at no place.
pub proof fn lemma_first_named_none(names: Seq<Seq<char>>, name: Seq<char>, n: nat)
    requires
        n <= names.len(),
        first_named(names, name, n) is None,
    ensures
        forall|i: int| 0 <= i < n ==> names[i] != name,
    decreases n,
{
    if n > 0 {
        lemma_first_named_none(names, name, (n - 1) as nat);
    }
}

/// The places hold modules of the first `n`, and no two of them modules
/// of one name.
pub proof fn lemma_placed_distinct(cms: Seq<CompiledModule>, n: nat)
    requires
        n <= cms.len(),
    ensures
        names_at(cms, placed(cms, n)).no_duplicates(),
        forall|i: int| 0 <= i < placed(cms, n).len() ==> 0 <= #[trigger] placed(cms, n)[i] < n,
    decreases n,
{
    if n > 0 {
        lemma_placed_distinct(cms, (n - 1) as nat);
        let prev = placed(cms, (n - 1) as nat);
        let names = names_at(cms, prev);
        let name = module_display_of(&cms[n - 1]);
        lemma_first_named_bound(names, name, names.len());
        match first_named(names, name, names.len()) {
            Some(i) => {
                assert(names_at(cms, prev.update(i, n - 1)) =~= names);
            },
            None => {
                lemma_first_named_none(names, name, names.len());
                assert(names_at(cms, prev.push(n - 1)) =~= names.push(name));
            },
        }
    }
}

impl<'a> Packages<'a> {
    /// A package that was lifted from modules holds no two modules of one
    /// name.
    pub proof fn lemma_names_distinct(&self, cms: Seq<CompiledModule>)
        requires
            self.lifted_from(cms, cms.len()),
        ensures
            self.names().no_duplicates(),
    {
        lemma_placed_distinct(cms, cms.len());
        let places = placed(cms, cms.len());
        assert(self.names() =~= names_at(cms, places)) by {
            assert forall|i: int| 0 <= i < places.len() implies self.names()[i] == names_at(
                cms,
                places,
            )[i] by {
                assert(holds_module(self.packages@[i], cms, places[i], cms.len()));
            }
        }
    }
}

/// Lifting one module twice gives the same: the same functions with the
/// same names, code, types and tables of definitions and uses, the same
/// control-flow graphs and the same call graph.
pub proof fn lemma_lift_repeats(
    a: &StacklessBytecodeGenerator,
    b: &StacklessBytecodeGenerator,
    cm: &CompiledModule,
)
    requires
        is_lifted(a, cm),
        is_lifted(b, cm),
    ensures
        a.functions@.len() == b.functions@.len(),
        forall|f: int|
            0 <= f < a.functions@.len() ==> {
                let x = #[trigger] a.functions@[f];
                let y = b.functions@[f];
                &&& x.idx == y.idx
                &&& x.name@ == y.name@
                &&& x.args_count == y.args_count
                &&& code_view(x.code@) == code_view(y.code@)
                &&& crate::move_ir::types::types_view(x.local_types@)
                    == crate::move_ir::types::types_view(y.local_types@)
                &&& x.location_table@.len() == y.location_table@.len()
                &&& x.fallthrough_labels@.to_set() == y.fallthrough_labels@.to_set()
                &&& crate::move_ir::def_use::table_view(x.def_attrid@)
                    == crate::move_ir::def_use::table_view(y.def_attrid@)
                &&& crate::move_ir::def_use::table_view(x.use_attrid@)
                    == crate::move_ir::def_use::table_view(y.use_attrid@)
                &&& x.cfg is Some == y.cfg is Some
                &&& x.cfg matches Some(p) ==> {
                    let q = y.cfg->0;
                    &&& p.entry_block_id == q.entry_block_id
                    &&& p.blocks@.len() == q.blocks@.len()
                    &&& forall|i: int|
                        0 <= i < p.blocks@.len() ==> (#[trigger] p.blocks@[i]).content
                            == q.blocks@[i].content && p.blocks@[i].successors@
                            == q.blocks@[i].successors@
                }
            },
        crate::move_ir::call_graph::graph_weights(a.call_graph)
            == crate::move_ir::call_graph::graph_weights(b.call_graph),
        crate::move_ir::call_graph::graph_out(a.call_graph) == crate::move_ir::call_graph::graph_out(
            b.call_graph,
        ),
{
    reveal(is_lifted);
    let ctx = lift_ctx_of(cm);
    assert(a.lifted_all() && b.lifted_all());
    assert(a.functions@.len() == b.functions@.len());
    assert forall|f: int| 0 <= f < a.functions@.len() implies {
        let x = #[trigger] a.functions@[f];
        let y = b.functions@[f];
        &&& x.idx == y.idx
        &&& x.name@ == y.name@
        &&& x.args_count == y.args_count
        &&& code_view(x.code@) == code_view(y.code@)
        &&& crate::move_ir::types::types_view(x.local_types@)
            == crate::move_ir::types::types_view(y.local_types@)
        &&& x.location_table@.len() == y.location_table@.len()
        &&& x.fallthrough_labels@.to_set() == y.fallthrough_labels@.to_set()
        &&& crate::move_ir::def_use::table_view(x.def_attrid@)
            == crate::move_ir::def_use::table_view(y.def_attrid@)
        &&& crate::move_ir::def_use::table_view(x.use_attrid@)
            == crate::move_ir::def_use::table_view(y.use_attrid@)
        &&& x.cfg is Some == y.cfg is Some
        &&& x.cfg matches Some(p) ==> {
            let q = y.cfg->0;
            &&& p.entry_block_id == q.entry_block_id
            &&& p.blocks@.len() == q.blocks@.len()
            &&& forall|i: int|
                0 <= i < p.blocks@.len() ==> (#[trigger] p.blocks@[i]).content
                    == q.blocks@[i].content && p.blocks@[i].successors@
                    == q.blocks@[i].successors@
        }
    } by {
        let x = a.functions@[f];
        let y = b.functions@[f];
        let l = lift_function(ctx, f)->0;
        assert(x.lifted_code(l) && y.lifted_code(l));
        assert(code_view(x.code@).len() == x.code@.len());
        assert(code_view(y.code@).len() == y.code@.len());
        assert(a.has_body(f) == b.has_body(f));
        if x.cfg is Some {
            crate::move_ir::control_flow_graph::lemma_graph_unique(
                &x.cfg->0,
                &y.cfg->0,
                code_view(x.code@),
            );
        }
    }
    assert(a.ctx() == b.ctx());
    assert(a.has_call_graph() && b.has_call_graph());
    lemma_call_out_same(
        ctx,
        a.functions@,
        b.functions@,
        crate::move_ir::build_graphs::key_order(ctx, a.symbol_pool@.len()),
        cm.function_defs@.len(),
    );
}

/// The callees depend on the code of the functions alone.
pub proof fn lemma_call_out_same(
    ctx: crate::move_ir::lowering::LiftCtx,
    a: Seq<FunctionInfo>,
    b: Seq<FunctionInfo>,
    order: Seq<usize>,
    n: nat,
)
    requires
        forall|f: int| 0 <= f < n ==> code_view(#[trigger] a[f].code@) == code_view(b[f].code@),
    ensures
        crate::move_ir::build_graphs::call_out(ctx, a, order, n)
            == crate::move_ir::build_graphs::call_out(ctx, b, order, n),
    decreases n,
{
    if n > 0 {
        lemma_call_out_same(ctx, a, b, order, (n - 1) as nat);
        assert(code_view(a[n - 1].code@) == code_view(b[n - 1].code@));
    }
}

} // verus!
