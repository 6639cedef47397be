use vstd::prelude::*;
use crate::move_ir::file_format::{CompiledModule, MoveBytecode};
use crate::move_ir::generate_bytecode::StacklessBytecodeGenerator;
use crate::scanner::detects::common::collected;
use crate::utils::strings::texts;
use crate::utils::utils::{debug_string, debug_text};

verus! {

/// One of the first `n` instructions of `code` loads the constant `c`.
pub open spec fn code_loads(code: Seq<MoveBytecode>, c: int, n: nat) -> bool
    decreases n,
{
    n > 0 && (code_loads(code, c, (n - 1) as nat) || (code[n - 1] matches MoveBytecode::LdConst(i)
        && i == c))
}

/// One of the first `n` functions of the module loads the constant `c`.
pub open spec fn is_loaded(m: &CompiledModule, c: int, n: nat) -> bool
    decreases n,
{
    n > 0 && (is_loaded(m, c, (n - 1) as nat) || (m.function_defs@[n - 1].code matches Some(unit)
        && code_loads(unit.code@, c, unit.code@.len())))
}

/// The constant `c` as the detector reports it, if no function loads it.
pub open spec fn unused_constant(m: &CompiledModule, c: int) -> Option<Seq<char>> {
    if is_loaded(m, c, m.function_defs@.len()) {
        None
    } else {
        Some(debug_text(m.constant_pool@[c].value))
    }
}

/// The constants of the module that no function loads, as diagnostics
/// show them, in the order of the pool.
pub open spec fn unused_constants(m: &CompiledModule) -> Seq<Seq<char>> {
    collected(
        Seq::new(m.constant_pool@.len(), |c: int| unused_constant(m, c)),
        m.constant_pool@.len(),
    )
}

/// For each constant of the pool, whether a function of the module loads
/// it.
#[verifier::loop_isolation(false)]
fn loaded_constants(m: &CompiledModule) -> (r: Vec<bool>)
    ensures
        r@.len() == m.constant_pool@.len(),
        forall|c: int| 0 <= c < r@.len() ==> #[trigger] r@[c] == is_loaded(m, c, m.function_defs@.len()),
{
    let len = m.constant_pool.len();
    let mut visited: Vec<bool> = Vec::new();
    let mut c: usize = 0;
    while c < len
        invariant
            c <= len,
            visited@.len() == c,
            forall|j: int| 0 <= j < c ==> #[trigger] visited@[j] == false,
        decreases len - c,
    {
        visited.push(false);
        c += 1;
    }
    let mut f: usize = 0;
    while f < m.function_defs.len()
        invariant
            f <= m.function_defs.len(),
            visited@.len() == len,
            forall|j: int| 0 <= j < len ==> #[trigger] visited@[j] == is_loaded(m, j, f as nat),
        decreases m.function_defs.len() - f,
    {
        match &m.function_defs[f].code {
            Some(unit) => {
                let mut pc: usize = 0;
                while pc < unit.code.len()
                    invariant
                        pc <= unit.code.len(),
                        visited@.len() == len,
                        forall|j: int|
                            0 <= j < len ==> #[trigger] visited@[j] == (is_loaded(m, j, f as nat)
                                || code_loads(unit.code@, j, pc as nat)),
                    decreases unit.code.len() - pc,
                {
                    let ghost before = visited@;
                    match unit.code[pc] {
                        MoveBytecode::LdConst(i) => {
                            if (i as usize) < len {
                                visited.set(i as usize, true);
                            }
                        },
                        _ => {},
                    }
                    assert forall|j: int| 0 <= j < len implies #[trigger] visited@[j] == (is_loaded(
                        m,
                        j,
                        f as nat,
                    ) || code_loads(unit.code@, j, (pc + 1) as nat)) by {
                        assert(before[j] == (is_loaded(m, j, f as nat) || code_loads(
                            unit.code@,
                            j,
                            pc as nat,
                        )));
                    }
                    pc += 1;
                }
            },
            None => {},
        }
        f += 1;
    }
    visited
}

/// The constants of the module that no function loads, as diagnostics
/// show them, in the order of the pool.
#[verifier::loop_isolation(false)]
pub fn detect_unused_constants(stbgr: &StacklessBytecodeGenerator) -> (r: Vec<String>)
    ensures
        texts(r@) == unused_constants(stbgr.module),
{
    let m = stbgr.module;
    let visited = loaded_constants(m);
    let ghost items = Seq::new(m.constant_pool@.len(), |c: int| unused_constant(m, c));
    let mut out: Vec<String> = Vec::new();
    let mut c: usize = 0;
    assert(texts(out@) =~= collected(items, 0));
    while c < m.constant_pool.len()
        invariant
            c <= m.constant_pool.len(),
            texts(out@) == collected(items, c as nat),
        decreases m.constant_pool.len() - c,
    {
        let ghost before = texts(out@);
        if !visited[c] {
            let text = debug_string(&m.constant_pool[c].value);
            out.push(text);
            assert(texts(out@) =~= before.push(text@));
        }
        c += 1;
    }
    out
}

/// The detector of constants that nothing loads.
pub struct Detector5<'a> {
    pub packages: &'a crate::move_ir::packages::Packages<'a>,
    pub content: crate::scanner::result::DetectContent,
}

impl<'a> crate::scanner::detectors::AbstractDetector<'a> for Detector5<'a> {
    open spec fn package(&self) -> &'a crate::move_ir::packages::Packages<'a> {
        self.packages
    }

    open spec fn found(&self) -> &crate::scanner::result::DetectContent {
        &self.content
    }

    open spec fn class() -> crate::scanner::result::DetectKind {
        crate::scanner::result::DetectKind::UnusedConstant
    }

    fn new(packages: &'a crate::move_ir::packages::Packages<'a>) -> (r: Self) {
        Self {
            packages,
            content: crate::scanner::result::DetectContent::new(
                crate::scanner::result::Severity::Minor,
                crate::scanner::result::DetectKind::UnusedConstant,
            ),
        }
    }

    fn run(&mut self) -> (r: &crate::scanner::result::DetectContent) {
        self.content.result = crate::scanner::detects::common::run_detector(
            crate::scanner::result::DetectKind::UnusedConstant,
            self.packages,
        );
        &self.content
    }
}

} // verus!
