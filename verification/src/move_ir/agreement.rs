use vstd::prelude::*;
use crate::move_ir::bytecode::{code_view, BytecodeV, OperationV};
use crate::move_ir::data_dependency::{analysis, callee_of, resolve};
use crate::move_ir::file_format::CompiledModule;
use crate::move_ir::generate_bytecode::{lift_ctx_of, lift_function, FunctionInfo, StacklessBytecodeGenerator};
use crate::move_ir::packages::{
    can_analyse, first_named, holds_module, is_lifted, lemma_first_named_bound, names_modules_of,
    placed, Packages,
};
use crate::move_ir::types::types_view;
use crate::move_ir::u256::U256;

verus! {

/// The two functions have the same name, the same code and the same
/// types of temps.
pub open spec fn same_function(x: FunctionInfo, y: FunctionInfo) -> bool {
    &&& x.name@ == y.name@
    &&& code_view(x.code@) == code_view(y.code@)
    &&& types_view(x.local_types@) == types_view(y.local_types@)
}

/// The two lifters hold the same module with the same names and the same
/// functions.
pub open spec fn alike(a: &StacklessBytecodeGenerator, b: &StacklessBytecodeGenerator) -> bool {
    &&& *a.module == *b.module
    &&& a.symbol_pool@ == b.symbol_pool@
    &&& a.module_names@ == b.module_names@
    &&& a.functions@.len() == b.functions@.len()
    &&& forall|f: int|
        0 <= f < a.functions@.len() ==> same_function(#[trigger] a.functions@[f], b.functions@[f])
}

/// The two entries have the same name and hold lifters that are alike.
pub open spec fn alike_entry(
    a: (String, StacklessBytecodeGenerator),
    b: (String, StacklessBytecodeGenerator),
) -> bool {
    a.0@ == b.0@ && alike(&a.1, &b.1)
}

impl<'a> Packages<'a> {
    /// The two packages hold the same modules under the same names, with
    /// the same functions.
    pub open spec fn alike(&self, other: &Self) -> bool {
        &&& self.packages@.len() == other.packages@.len()
        &&& forall|i: int|
            0 <= i < self.packages@.len() ==> alike_entry(
                #[trigger] self.packages@[i],
                other.packages@[i],
            )
    }
}

proof fn lemma_names_alike(pa: &Packages, pb: &Packages)
    requires
        pa.alike(pb),
    ensures
        pa.names() == pb.names(),
{
    assert(pa.names() =~= pb.names()) by {
        assert forall|i: int| 0 <= i < pa.packages@.len() implies pa.names()[i] == pb.names()[i] by {
            assert(alike_entry(pa.packages@[i], pb.packages@[i]));
        }
    }
}

proof fn lemma_function_names_alike(a: &StacklessBytecodeGenerator, b: &StacklessBytecodeGenerator)
    requires
        alike(a, b),
    ensures
        a.function_names() == b.function_names(),
{
    assert(a.function_names() =~= b.function_names()) by {
        assert forall|f: int| 0 <= f < a.functions@.len() implies a.function_names()[f]
            == b.function_names()[f] by {
            assert(same_function(a.functions@[f], b.functions@[f]));
        }
    }
}

/// A call leads to the same function in packages that are alike.
pub proof fn lemma_resolve_alike(
    pa: &Packages,
    pb: &Packages,
    ga: &StacklessBytecodeGenerator,
    gb: &StacklessBytecodeGenerator,
    instr: BytecodeV,
)
    requires
        pa.alike(pb),
        alike(ga, gb),
    ensures
        resolve(pa, ga, instr) == resolve(pb, gb, instr),
        resolve(pa, ga, instr) matches Some((m, f)) ==> 0 <= m < pa.packages@.len() && 0 <= f
            < pa.packages@[m].1.functions@.len(),
{
    lemma_names_alike(pa, pb);
    match instr {
        BytecodeV::Call(_, _, OperationV::Function(mid, fid, _), _, _) => {
            if mid.0 < ga.module_names@.len() {
                let name = ga.spec_module_display(ga.module_names@[mid.0 as int]);
                lemma_first_named_bound(pa.names(), name, pa.packages@.len());
                match first_named(pa.names(), name, pa.packages@.len()) {
                    Some(m) => {
                        assert(alike_entry(pa.packages@[m], pb.packages@[m]));
                        lemma_function_names_alike(&pa.packages@[m].1, &pb.packages@[m].1);
                        lemma_first_named_bound(
                            pa.packages@[m].1.function_names(),
                            ga.symbol_pool@[fid.0.0 as int],
                            pa.packages@[m].1.functions@.len(),
                        );
                    },
                    None => {},
                }
            }
        },
        _ => {},
    }
}

/// The analysis reads the names, the code and the types of a package
/// alone: packages that are alike yield the same trees.
pub proof fn lemma_analysis_alike(
    pa: &Packages,
    pb: &Packages,
    ga: &StacklessBytecodeGenerator,
    gb: &StacklessBytecodeGenerator,
    f: int,
    depth: nat,
    n: nat,
)
    requires
        pa.alike(pb),
        alike(ga, gb),
        0 <= f < ga.functions@.len(),
    ensures
        analysis(pa, ga, f, depth, n) == analysis(pb, gb, f, depth, n),
    decreases depth, 1nat, n,
{
    assert(same_function(ga.functions@[f], gb.functions@[f]));
    if n > 0 {
        lemma_analysis_alike(pa, pb, ga, gb, f, depth, (n - 1) as nat);
        let instr = code_view(ga.functions@[f].code@)[n - 1];
        lemma_callee_alike(pa, pb, ga, gb, instr, depth);
    }
}

pub proof fn lemma_callee_alike(
    pa: &Packages,
    pb: &Packages,
    ga: &StacklessBytecodeGenerator,
    gb: &StacklessBytecodeGenerator,
    instr: BytecodeV,
    depth: nat,
)
    requires
        pa.alike(pb),
        alike(ga, gb),
    ensures
        callee_of(pa, ga, instr, depth) == callee_of(pb, gb, instr, depth),
    decreases depth, 0nat, 0nat,
{
    lemma_resolve_alike(pa, pb, ga, gb, instr);
    if depth > 0 {
        match resolve(pa, ga, instr) {
            None => {},
            Some((m, f)) => {
                assert(alike_entry(pa.packages@[m], pb.packages@[m]));
                let ha = &pa.packages@[m].1;
                let hb = &pb.packages@[m].1;
                assert(same_function(ha.functions@[f], hb.functions@[f]));
                let n = code_view(ha.functions@[f].code@).len();
                lemma_analysis_alike(pa, pb, ha, hb, f, (depth - 1) as nat, n);
            },
        }
    }
}

/// Two lifters that hold one module lifted are alike.
pub proof fn lemma_lifted_alike(
    a: &StacklessBytecodeGenerator,
    b: &StacklessBytecodeGenerator,
    cm: &CompiledModule,
)
    requires
        is_lifted(a, cm),
        is_lifted(b, cm),
    ensures
        alike(a, b),
{
    reveal(is_lifted);
    let n = cm.module_handles@.len() as int;
    assert(a.ctx() == b.ctx());
    assert(a.module_names@ =~= b.module_names@) by {
        assert(names_modules_of(a, cm) && names_modules_of(b, cm));
        assert forall|i: int| 0 <= i < a.module_names@.len() implies a.module_names@[i]
            == b.module_names@[i] by {
            if i < n {
            } else {
                let x = a.module_names@[i];
                let y = b.module_names@[i];
                U256::lemma_view_injective(x.address, y.address);
                assert(a.holds(x.name, "vector"@));
                assert(b.holds(y.name, "vector"@));
                assert(a.symbol_pool@.no_duplicates());
            }
        }
    }
    assert forall|f: int| 0 <= f < a.functions@.len() implies same_function(
        #[trigger] a.functions@[f],
        b.functions@[f],
    ) by {
        let l = lift_function(lift_ctx_of(cm), f)->0;
        assert(a.functions@[f].lifted_code(l));
        assert(b.functions@[f].lifted_code(l));
    }
}

/// Two packages that are lifted from the same modules are alike.
pub proof fn lemma_packages_alike(pa: &Packages, pb: &Packages, cms: Seq<CompiledModule>)
    requires
        pa.lifted_from(cms, cms.len()),
        pb.lifted_from(cms, cms.len()),
    ensures
        pa.alike(pb),
{
    let places = placed(cms, cms.len());
    assert forall|i: int| 0 <= i < pa.packages@.len() implies alike_entry(
        #[trigger] pa.packages@[i],
        pb.packages@[i],
    ) by {
        assert(holds_module(pa.packages@[i], cms, places[i], cms.len()));
        assert(holds_module(pb.packages@[i], cms, places[i], cms.len()));
        lemma_lifted_alike(&pa.packages@[i].1, &pb.packages@[i].1, &cms[places[i]]);
    }
}

/// Whether the functions of a package can be analysed is decided by the
/// modules that it is lifted from.
pub proof fn lemma_analysable_decided(pa: &Packages, pb: &Packages, cms: Seq<CompiledModule>)
    requires
        pa.lifted_from(cms, cms.len()),
        pb.lifted_from(cms, cms.len()),
    ensures
        pa.analysable() == pb.analysable(),
{
    lemma_packages_alike(pa, pb, cms);
    lemma_packages_alike(pb, pa, cms);
    if pa.analysable() {
        assert forall|i: int, f: int|
            0 <= i < pb.packages@.len() && 0 <= f < pb.packages@[i].1.functions@.len() implies #[trigger] can_analyse(
            pb,
            i,
            f,
        ) by {
            assert(alike_entry(pa.packages@[i], pb.packages@[i]));
            assert(same_function(pa.packages@[i].1.functions@[f], pb.packages@[i].1.functions@[f]));
            assert(code_view(pa.packages@[i].1.functions@[f].code@).len()
                == pa.packages@[i].1.functions@[f].code@.len());
            assert(code_view(pb.packages@[i].1.functions@[f].code@).len()
                == pb.packages@[i].1.functions@[f].code@.len());
            assert(can_analyse(pa, i, f));
            lemma_analysis_alike(
                pa,
                pb,
                &pa.packages@[i].1,
                &pb.packages@[i].1,
                f,
                1,
                pa.packages@[i].1.functions@[f].code@.len(),
            );
        }
    }
    if pb.analysable() {
        assert forall|i: int, f: int|
            0 <= i < pa.packages@.len() && 0 <= f < pa.packages@[i].1.functions@.len() implies #[trigger] can_analyse(
            pa,
            i,
            f,
        ) by {
            assert(alike_entry(pb.packages@[i], pa.packages@[i]));
            assert(same_function(pb.packages@[i].1.functions@[f], pa.packages@[i].1.functions@[f]));
            assert(code_view(pa.packages@[i].1.functions@[f].code@).len()
                == pa.packages@[i].1.functions@[f].code@.len());
            assert(code_view(pb.packages@[i].1.functions@[f].code@).len()
                == pb.packages@[i].1.functions@[f].code@.len());
            assert(can_analyse(pb, i, f));
            lemma_analysis_alike(
                pb,
                pa,
                &pb.packages@[i].1,
                &pa.packages@[i].1,
                f,
                1,
                pb.packages@[i].1.functions@[f].code@.len(),
            );
        }
    }
}

} // verus!
