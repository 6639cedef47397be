use vstd::prelude::*;
use crate::cli::parser::Args;
use crate::move_ir::file_format::CompiledModule;
use crate::move_ir::packages::{buildable, Packages};
use crate::move_ir::generate_bytecode::StacklessBytecodeGenerator;
use crate::scanner::detects::common::{
    all_ready, is_finding_of, is_result_of, lemma_built_is_ready, module_findings, run_detector,
};
use crate::utils::strings::texts;
use crate::scanner::result::{
    is_first, DetectContent, DetectKind, ModuleInfo, Result, Severity, Status, DETECT_KINDS,
};

verus! {

/// A detector: it looks for one class of defect in the modules of a
/// package.
pub trait AbstractDetector<'a>: Sized {
    /// The package that the detector looks at.
    spec fn package(&self) -> &'a Packages<'a>;

    /// What the detector has found.
    spec fn found(&self) -> &DetectContent;

    /// The class of defect that the detector looks for.
    spec fn class() -> DetectKind;

    /// A detector for `packages` that has not run yet.
    fn new(packages: &'a Packages<'a>) -> (r: Self)
        ensures
            r.package() == packages,
            r.found().kind == Self::class(),
            r.found().result@.len() == 0,
    ;

    /// Looks at every module of the package and records, for each module
    /// in order, what it finds.
    fn run(&mut self) -> (r: &DetectContent)
        requires
            all_ready(old(self).package()),
            old(self).found().kind == Self::class(),
        ensures
            final(self).package() == old(self).package(),
            r == final(self).found(),
            r.kind == Self::class(),
            r.severity == old(self).found().severity,
            is_result_of(r.result@, Self::class(), old(self).package()),
    ;
}

/// A run of the whole suite of detectors, with its result.
pub struct Detectors {
    pub args: Args,
    pub result: Result,
}

/// The findings that the first `n` of `entries` hold for the module
/// `name`, in order.
pub open spec fn findings_of(
    entries: Seq<(String, Vec<String>)>,
    name: Seq<char>,
    n: nat,
) -> Seq<String>
    decreases n,
{
    if n == 0 {
        Seq::empty()
    } else if entries[n - 1].0@ == name {
        findings_of(entries, name, (n - 1) as nat) + entries[n - 1].1@
    } else {
        findings_of(entries, name, (n - 1) as nat)
    }
}

/// The module `now` is as the module `was`, but for its findings of kind
/// `kind`, which have `added` behind them.
pub open spec fn grown(
    now: (String, ModuleInfo),
    was: (String, ModuleInfo),
    kind: DetectKind,
    added: Seq<String>,
) -> bool {
    &&& now.0 == was.0
    &&& now.1.status == was.1.status
    &&& now.1.location == was.1.location
    &&& now.1.function_count == was.1.function_count
    &&& now.1.constant_count == was.1.constant_count
    &&& now.1.detectors@.len() == was.1.detectors@.len()
    &&& forall|k: int|
        0 <= k < DETECT_KINDS && k != kind.spec_index() ==> now.1.detectors@[k]
            == was.1.detectors@[k]
    &&& now.1.detectors@[kind.spec_index()]@ == was.1.detectors@[kind.spec_index()]@ + added
}

/// What the first `n` of `entries` add to the module at place `i` of a
/// result whose modules have the names `names`: their findings for its
/// name if no module before it has that name, else nothing.
pub open spec fn merged(
    names: Seq<Seq<char>>,
    entries: Seq<(String, Vec<String>)>,
    i: int,
    n: nat,
) -> Seq<String> {
    if is_first(names, names[i], i) {
        findings_of(entries, names[i], n)
    } else {
        Seq::empty()
    }
}

/// The names of those among the first `n` of `modules` that have the
/// status `status`, in order.
pub open spec fn names_by_status(
    modules: Seq<(String, ModuleInfo)>,
    status: Status,
    n: nat,
) -> Seq<String>
    decreases n,
{
    if n == 0 {
        Seq::empty()
    } else if modules[n - 1].1.status == status {
        names_by_status(modules, status, (n - 1) as nat).push(modules[n - 1].0)
    } else {
        names_by_status(modules, status, (n - 1) as nat)
    }
}

/// The status of a module with the findings of `info`.
pub open spec fn status_of(info: ModuleInfo) -> Status {
    if info.is_clean() {
        Status::Pass
    } else {
        Status::Wrong
    }
}

/// A module is clean exactly if the number of its findings is zero.
pub proof fn lemma_clean_iff_no_findings(info: ModuleInfo)
    ensures
        info.is_clean() <==> info.findings(info.detectors@.len()) == 0,
{
    lemma_findings_prefix(info, info.detectors@.len());
}

proof fn lemma_findings_prefix(info: ModuleInfo, n: nat)
    requires
        n <= info.detectors@.len(),
    ensures
        info.findings(n) == 0 <==> forall|k: int| 0 <= k < n ==> (#[trigger] info.detectors@[k])@.len() == 0,
    decreases n,
{
    if n > 0 {
        lemma_findings_prefix(info, (n - 1) as nat);
        if info.findings(n) == 0 {
            assert forall|k: int| 0 <= k < n implies (#[trigger] info.detectors@[k])@.len() == 0 by {
                if k < n - 1 {
                } else {
                    assert(info.detectors@[n - 1]@.len() == 0);
                }
            }
        } else {
            if info.findings((n - 1) as nat) == 0 {
                assert(info.detectors@[n - 1]@.len() != 0);
            }
        }
    }
}

impl Detectors {
    /// Every module of the result has a list of findings for each kind.
    pub open spec fn wf(&self) -> bool {
        forall|i: int| 0 <= i < self.result.modules@.len() ==> (#[trigger] self.result.modules@[i]).1.wf()
    }

    pub fn new(args: Args) -> (r: Self)
        ensures
            r.args == args,
            r.wf(),
            r.result.modules@.len() == 0,
            r.result.total_time == 0,
            r.result.modules_status.pass@.len() == 0,
            r.result.modules_status.wrong@.len() == 0,
    {
        Self { args, result: Result::empty() }
    }

    /// Appends `findings` to the findings of kind `kind` of the module at
    /// place `i`.
    fn extend(&mut self, i: usize, kind: DetectKind, findings: &Vec<String>)
        requires
            old(self).wf(),
            i < old(self).result.modules@.len(),
        ensures
            final(self).wf(),
            final(self).args == old(self).args,
            final(self).result.modules_status == old(self).result.modules_status,
            final(self).result.total_time == old(self).result.total_time,
            final(self).result.modules@.len() == old(self).result.modules@.len(),
            forall|j: int|
                0 <= j < old(self).result.modules@.len() && j != i ==> final(self).result.modules@[j]
                    == old(self).result.modules@[j],
            final(self).result.modules@[i as int].0 == old(self).result.modules@[i as int].0,
            final(self).result.modules@[i as int].1.status == old(self).result.modules@[i as int].1.status,
            final(self).result.modules@[i as int].1.location == old(self).result.modules@[i as int].1.location,
            final(self).result.modules@[i as int].1.function_count == old(self).result.modules@[i as int].1.function_count,
            final(self).result.modules@[i as int].1.constant_count == old(self).result.modules@[i as int].1.constant_count,
            forall|k: int|
                0 <= k < DETECT_KINDS && k != kind.spec_index() ==> final(self).result.modules@[i as int].1.detectors@[k] == old(self).result.modules@[i as int].1.detectors@[k],
            final(self).result.modules@[i as int].1.detectors@[kind.spec_index()]@ == old(self).result.modules@[i as int].1.detectors@[kind.spec_index()]@ + findings@,
    {
        let k = kind.index();
        let ghost before = self.result.modules@[i as int].1.detectors@[k as int]@;
        let mut j: usize = 0;
        while j < findings.len()
            invariant
                j <= findings.len(),
                k == kind.spec_index(),
                k < DETECT_KINDS,
                i < self.result.modules@.len(),
                self.wf(),
                self.args == old(self).args,
                self.result.modules_status == old(self).result.modules_status,
                self.result.total_time == old(self).result.total_time,
                self.result.modules@.len() == old(self).result.modules@.len(),
                forall|m: int|
                    0 <= m < old(self).result.modules@.len() && m != i ==> self.result.modules@[m]
                        == old(self).result.modules@[m],
                self.result.modules@[i as int].0 == old(self).result.modules@[i as int].0,
                self.result.modules@[i as int].1.status == old(self).result.modules@[i as int].1.status,
                self.result.modules@[i as int].1.location == old(self).result.modules@[i as int].1.location,
                self.result.modules@[i as int].1.function_count == old(self).result.modules@[i as int].1.function_count,
                self.result.modules@[i as int].1.constant_count == old(self).result.modules@[i as int].1.constant_count,
                forall|x: int|
                    0 <= x < DETECT_KINDS && x != k ==> self.result.modules@[i as int].1.detectors@[x]
                        == old(self).result.modules@[i as int].1.detectors@[x],
                before == old(self).result.modules@[i as int].1.detectors@[k as int]@,
                self.result.modules@[i as int].1.detectors@[k as int]@ == before
                    + findings@.subrange(0, j as int),
            decreases findings.len() - j,
        {
            let ghost prev = self.result.modules@[i as int].1.detectors@[k as int]@;
            self.result.modules[i].1.detectors[k].push(findings[j].clone());
            assert(self.result.modules@[i as int].1.detectors@[k as int]@ =~= before
                + findings@.subrange(0, j + 1)) by {
                assert(findings@.subrange(0, j + 1) =~= findings@.subrange(0, j as int).push(
                    findings@[j as int],
                ));
            }
            j += 1;
        }
        assert(findings@.subrange(0, findings@.len() as int) =~= findings@);
    }
}

impl Detectors {
    /// Adds what one detector found to the result: the findings of each
    /// module go behind the findings of the detector's kind that the
    /// module already has.
    pub fn merge_result(&mut self, detect_content: &DetectContent)
        requires
            old(self).wf(),
            forall|e: int|
                0 <= e < detect_content.result@.len() ==> old(self).result.names().contains(
                    #[trigger] detect_content.result@[e].0@,
                ),
        ensures
            final(self).wf(),
            final(self).args == old(self).args,
            final(self).result.modules_status == old(self).result.modules_status,
            final(self).result.total_time == old(self).result.total_time,
            final(self).result.modules@.len() == old(self).result.modules@.len(),
            forall|i: int|
                0 <= i < old(self).result.modules@.len() ==> grown(
                    #[trigger] final(self).result.modules@[i],
                    old(self).result.modules@[i],
                    detect_content.kind,
                    merged(
                        old(self).result.names(),
                        detect_content.result@,
                        i,
                        detect_content.result@.len(),
                    ),
                ),
    {
        let kind = detect_content.kind;
        let ghost names = self.result.names();
        let ghost entries = detect_content.result@;
        let mut e: usize = 0;
        assert forall|i: int| 0 <= i < self.result.modules@.len() implies grown(
            #[trigger] self.result.modules@[i],
            old(self).result.modules@[i],
            kind,
            merged(names, entries, i, 0),
        ) by {
            assert(self.result.modules@[i].1.detectors@[kind.spec_index()]@ + Seq::<
                String,
            >::empty() =~= self.result.modules@[i].1.detectors@[kind.spec_index()]@);
        }
        while e < detect_content.result.len()
            invariant
                e <= detect_content.result.len(),
                kind == detect_content.kind,
                entries == detect_content.result@,
                names == old(self).result.names(),
                self.result.names() == names,
                old(self).wf(),
                self.wf(),
                self.args == old(self).args,
                self.result.modules_status == old(self).result.modules_status,
                self.result.total_time == old(self).result.total_time,
                self.result.modules@.len() == old(self).result.modules@.len(),
                forall|x: int| 0 <= x < entries.len() ==> names.contains(#[trigger] entries[x].0@),
                forall|i: int|
                    0 <= i < old(self).result.modules@.len() ==> grown(
                        #[trigger] self.result.modules@[i],
                        old(self).result.modules@[i],
                        kind,
                        merged(names, entries, i, e as nat),
                    ),
            decreases detect_content.result.len() - e,
        {
            let ghost mid = *self;
            let name = &detect_content.result[e].0;
            let findings = &detect_content.result[e].1;
            assert(names.contains(entries[e as int].0@));
            let i = match self.result.find(name) {
                Some(i) => i,
                None => {
                    proof {
                        assert(false);
                    }
                    0
                },
            };
            self.extend(i, kind, findings);
            proof {
                assert(self.result.names() =~= names);
                assert(grown(
                    self.result.modules@[i as int],
                    mid.result.modules@[i as int],
                    kind,
                    findings@,
                ));
                lemma_merge_step(
                    self.result.modules@,
                    mid.result.modules@,
                    old(self).result.modules@,
                    names,
                    entries,
                    kind,
                    e as nat,
                    i as int,
                );
            }
            e += 1;
        }
    }

    /// Closes the run: records the time it took, classifies every module
    /// as passed if no detector found anything in it and as wrong
    /// otherwise, and lists the modules by status.
    pub fn complete_result(&mut self, total_time: usize)
        requires
            old(self).wf(),
        ensures
            final(self).wf(),
            final(self).args == old(self).args,
            final(self).result.total_time == total_time,
            final(self).result.modules@.len() == old(self).result.modules@.len(),
            forall|i: int|
                0 <= i < old(self).result.modules@.len() ==> {
                    let now = #[trigger] final(self).result.modules@[i];
                    let was = old(self).result.modules@[i];
                    &&& now.0 == was.0
                    &&& now.1.status == status_of(was.1)
                    &&& now.1.location == was.1.location
                    &&& now.1.function_count == was.1.function_count
                    &&& now.1.constant_count == was.1.constant_count
                    &&& now.1.detectors == was.1.detectors
                    &&& (now.1.status == Status::Pass <==> now.1.findings(DETECT_KINDS as nat) == 0)
                },
            final(self).result.modules_status.pass@ == names_by_status(
                final(self).result.modules@,
                Status::Pass,
                final(self).result.modules@.len(),
            ),
            final(self).result.modules_status.wrong@ == names_by_status(
                final(self).result.modules@,
                Status::Wrong,
                final(self).result.modules@.len(),
            ),
    {
        self.result.total_time = total_time;
        let mut pass: Vec<String> = Vec::new();
        let mut wrong: Vec<String> = Vec::new();
        let n = self.result.modules.len();
        let mut i: usize = 0;
        while i < n
            invariant
                i <= n,
                n == old(self).result.modules@.len(),
                self.result.modules@.len() == n,
                old(self).wf(),
                self.wf(),
                self.args == old(self).args,
                self.result.total_time == total_time,
                forall|j: int| i <= j < n ==> self.result.modules@[j] == old(self).result.modules@[j],
                forall|j: int|
                    0 <= j < i ==> {
                        let now = #[trigger] self.result.modules@[j];
                        let was = old(self).result.modules@[j];
                        &&& now.0 == was.0
                        &&& now.1.status == status_of(was.1)
                        &&& now.1.location == was.1.location
                        &&& now.1.function_count == was.1.function_count
                        &&& now.1.constant_count == was.1.constant_count
                        &&& now.1.detectors == was.1.detectors
                        &&& (now.1.status == Status::Pass <==> now.1.findings(DETECT_KINDS as nat)
                            == 0)
                    },
                pass@ == names_by_status(self.result.modules@, Status::Pass, i as nat),
                wrong@ == names_by_status(self.result.modules@, Status::Wrong, i as nat),
            decreases n - i,
        {
            let ghost before = self.result.modules@;
            let clean = self.result.modules[i].1.check_clean();
            proof {
                lemma_clean_iff_no_findings(self.result.modules@[i as int].1);
                assert(self.result.modules@[i as int].1.wf());
            }
            let status = if clean {
                Status::Pass
            } else {
                Status::Wrong
            };
            self.result.modules[i].1.status = status;
            let name = self.result.modules[i].0.clone();
            if clean {
                pass.push(name);
            } else {
                wrong.push(name);
            }
            proof {
                let now = self.result.modules@;
                assert(now[i as int].1.findings(DETECT_KINDS as nat) == before[i as int].1.findings(
                    DETECT_KINDS as nat,
                )) by {
                    lemma_findings_same(now[i as int].1, before[i as int].1, DETECT_KINDS as nat);
                }
                lemma_names_same(before, now, Status::Pass, i as nat);
                lemma_names_same(before, now, Status::Wrong, i as nat);
            }
            i += 1;
        }
        self.result.modules_status.pass = pass;
        self.result.modules_status.wrong = wrong;
    }
}

/// One step of merging: where the module at place `i`, the first of its
/// name, has grown by the findings of entry `e`, every module has grown
/// by what the first `e + 1` entries add to it.
proof fn lemma_merge_step(
    now: Seq<(String, ModuleInfo)>,
    mid: Seq<(String, ModuleInfo)>,
    start: Seq<(String, ModuleInfo)>,
    names: Seq<Seq<char>>,
    entries: Seq<(String, Vec<String>)>,
    kind: DetectKind,
    e: nat,
    i: int,
)
    requires
        e < entries.len(),
        names.len() == start.len(),
        mid.len() == start.len(),
        now.len() == start.len(),
        is_first(names, entries[e as int].0@, i),
        grown(now[i], mid[i], kind, entries[e as int].1@),
        forall|m: int| 0 <= m < start.len() && m != i ==> now[m] == mid[m],
        forall|m: int|
            0 <= m < start.len() ==> grown(
                #[trigger] mid[m],
                start[m],
                kind,
                merged(names, entries, m, e),
            ),
    ensures
        forall|m: int|
            0 <= m < start.len() ==> grown(
                #[trigger] now[m],
                start[m],
                kind,
                merged(names, entries, m, (e + 1) as nat),
            ),
{
    assert forall|m: int| 0 <= m < start.len() implies grown(
        #[trigger] now[m],
        start[m],
        kind,
        merged(names, entries, m, (e + 1) as nat),
    ) by {
        assert(grown(mid[m], start[m], kind, merged(names, entries, m, e)));
        let k = kind.spec_index();
        let was = start[m].1.detectors@[k]@;
        let name = entries[e as int].0@;
        if m == i {
            assert(names[m] == name);
            assert(merged(names, entries, m, (e + 1) as nat) == findings_of(entries, name, e)
                + entries[e as int].1@);
            assert(was + findings_of(entries, name, e) + entries[e as int].1@ =~= was + (
            findings_of(entries, name, e) + entries[e as int].1@));
        } else {
            assert(now[m] == mid[m]);
            if is_first(names, names[m], m) {
                assert(names[m] != name);
                assert(merged(names, entries, m, (e + 1) as nat) == merged(names, entries, m, e));
            }
        }
    }
}

/// Two modules with the same lists of findings have the same number of
/// findings.
proof fn lemma_findings_same(a: ModuleInfo, b: ModuleInfo, n: nat)
    requires
        a.detectors == b.detectors,
    ensures
        a.findings(n) == b.findings(n),
    decreases n,
{
    if n > 0 {
        lemma_findings_same(a, b, (n - 1) as nat);
    }
}

/// The names by status of a prefix depend on that prefix alone.
proof fn lemma_names_same(
    a: Seq<(String, ModuleInfo)>,
    b: Seq<(String, ModuleInfo)>,
    status: Status,
    n: nat,
)
    requires
        n <= a.len(),
        a.len() == b.len(),
        forall|j: int| 0 <= j < n ==> a[j] == b[j],
    ensures
        names_by_status(a, status, n) == names_by_status(b, status, n),
    decreases n,
{
    if n > 0 {
        lemma_names_same(a, b, status, (n - 1) as nat);
    }
}

/// The kind at place `k` among all kinds.
pub open spec fn kind_at(k: int) -> DetectKind {
    if k == 0 {
        DetectKind::UncheckedReturn
    } else if k == 1 {
        DetectKind::Overflow
    } else if k == 2 {
        DetectKind::PrecisionLoss
    } else if k == 3 {
        DetectKind::InfiniteLoop
    } else if k == 4 {
        DetectKind::UnnecessaryTypeConversion
    } else if k == 5 {
        DetectKind::UnnecessaryBoolJudgment
    } else if k == 6 {
        DetectKind::UnusedConstant
    } else if k == 7 {
        DetectKind::UnusedPrivateFunctions
    } else {
        DetectKind::RecursiveFunctionCall
    }
}

/// The number of native functions among the first `n` of the module.
pub open spec fn native_count(g: &StacklessBytecodeGenerator, n: nat) -> nat
    decreases n,
{
    if n == 0 {
        0
    } else {
        native_count(g, (n - 1) as nat) + if g.module.function_defs@[n - 1].spec_is_native() {
            1nat
        } else {
            0nat
        }
    }
}

/// The list at place `k` holds what the detector of that kind finds in
/// the module, if the kind is among the first `done`, else nothing.
pub open spec fn list_reported(
    list: Vec<String>,
    g: &StacklessBytecodeGenerator,
    k: int,
    done: nat,
) -> bool {
    texts(list@) == if k < done {
        module_findings(kind_at(k), g)
    } else {
        Seq::empty()
    }
}

/// The entry reports the module of the lifter `g` under the name `name`:
/// its counts, and what the detectors of the first `done` kinds find in
/// it.
pub open spec fn module_reported(
    entry: (String, ModuleInfo),
    g: &StacklessBytecodeGenerator,
    name: String,
    done: nat,
) -> bool {
    &&& entry.0 == name
    &&& entry.1.wf()
    &&& entry.1.location is None
    &&& entry.1.constant_count == g.module.constant_pool@.len()
    &&& entry.1.function_count.all == g.functions@.len()
    &&& entry.1.function_count.native == native_count(g, g.functions@.len())
    &&& forall|k: int|
        0 <= k < DETECT_KINDS ==> list_reported(#[trigger] entry.1.detectors@[k], g, k, done)
}

/// The modules of the result report the modules of the package, one for
/// one and in order, with what the detectors of the first `done` kinds
/// find.
pub open spec fn reported(modules: Seq<(String, ModuleInfo)>, p: &Packages, done: nat) -> bool {
    &&& modules.len() == p.packages@.len()
    &&& forall|i: int|
        0 <= i < modules.len() ==> module_reported(
            #[trigger] modules[i],
            &p.packages@[i].1,
            p.packages@[i].0,
            done,
        )
}

/// Where no two modules share a name, what is merged into a module is
/// what the detector found in it.
pub proof fn lemma_findings_of_distinct(
    entries: Seq<(String, Vec<String>)>,
    names: Seq<Seq<char>>,
    i: int,
    n: nat,
)
    requires
        names.no_duplicates(),
        entries.len() == names.len(),
        forall|j: int| 0 <= j < entries.len() ==> (#[trigger] entries[j]).0@ == names[j],
        0 <= i < names.len(),
        n <= entries.len(),
    ensures
        findings_of(entries, names[i], n) == if i < n {
            entries[i].1@
        } else {
            Seq::<String>::empty()
        },
    decreases n,
{
    if n > 0 {
        lemma_findings_of_distinct(entries, names, i, (n - 1) as nat);
        if n - 1 == i {
            assert(Seq::<String>::empty() + entries[i].1@ =~= entries[i].1@);
        } else {
            assert(entries[n - 1].0@ == names[n - 1]);
            assert(names[n - 1] != names[i]);
        }
    }
}

impl Detectors {
    /// Starts the result anew: a module for each module of the package,
    /// with its counts and no finding.
    #[verifier::loop_isolation(false)]
    pub fn init_result(&mut self, packages: &Packages)
        requires
            packages.names().no_duplicates(),
            packages.wf(),
        ensures
            final(self).args == old(self).args,
            final(self).result.modules_status.pass@.len() == 0,
            final(self).result.modules_status.wrong@.len() == 0,
            final(self).result.total_time == 0,
            final(self).wf(),
            reported(final(self).result.modules@, packages, 0),
            final(self).result.names() == packages.names(),
    {
        self.result = Result::empty();
        let mut m: usize = 0;
        assert(self.result.names() =~= packages.names().take(0));
        while m < packages.packages.len()
            invariant
                m <= packages.packages.len(),
                self.args == old(self).args,
                self.result.modules_status.pass@.len() == 0,
                self.result.modules_status.wrong@.len() == 0,
                self.result.total_time == 0,
                self.wf(),
                self.result.modules@.len() == m,
                self.result.names() == packages.names().take(m as int),
                forall|i: int|
                    0 <= i < m ==> module_reported(
                        #[trigger] self.result.modules@[i],
                        &packages.packages@[i].1,
                        packages.packages@[i].0,
                        0,
                    ),
            decreases packages.packages.len() - m,
        {
            let stbgr = &packages.packages[m].1;
            assert(stbgr.wf() && stbgr.lifted_all());
            let mut module_info = ModuleInfo::empty();
            module_info.constant_count = stbgr.module.constant_pool.len();
            module_info.function_count.all = stbgr.functions.len();
            let mut native: usize = 0;
            let mut f: usize = 0;
            while f < stbgr.functions.len()
                invariant
                    f <= stbgr.functions.len(),
                    native == native_count(stbgr, f as nat),
                    native <= f,
                decreases stbgr.functions.len() - f,
            {
                if crate::move_ir::utils::is_native(f, stbgr) {
                    native += 1;
                }
                f += 1;
            }
            module_info.function_count.native = native;
            let name = packages.packages[m].0.clone();
            let ghost before = self.result.modules@;
            proof {
                let names = packages.names();
                assert(names[m as int] == name@);
                if self.result.names().contains(name@) {
                    let j = choose|j: int|
                        0 <= j < self.result.names().len() && self.result.names()[j] == name@;
                    assert(names[j] == name@);
                }
                assert forall|k: int| 0 <= k < DETECT_KINDS implies list_reported(
                    #[trigger] module_info.detectors@[k],
                    stbgr,
                    k,
                    0,
                ) by {
                    assert(module_info.detectors@[k]@.len() == 0);
                    assert(texts(module_info.detectors@[k]@) =~= Seq::<Seq<char>>::empty());
                }
            }
            self.result.add_module(name, module_info);
            proof {
                assert(self.result.modules@ == before.push((name, module_info)));
                assert(self.result.names() =~= packages.names().take(m + 1));
                assert forall|i: int| 0 <= i < m + 1 implies module_reported(
                    #[trigger] self.result.modules@[i],
                    &packages.packages@[i].1,
                    packages.packages@[i].0,
                    0,
                ) by {
                    if i < m {
                        assert(self.result.modules@[i] == before[i]);
                    }
                }
                assert forall|i: int| 0 <= i < self.result.modules@.len() implies (
                #[trigger] self.result.modules@[i]).1.wf() by {
                    if i < m {
                        assert(self.result.modules@[i] == before[i]);
                    }
                }
            }
            m += 1;
        }
        assert(packages.names().take(packages.names().len() as int) =~= packages.names());
    }
}

/// What a run of the suite leaves in the result: every module with its
/// counts and what each of the detectors finds in it, the status of each,
/// and the time.
pub open spec fn is_suite_result(result: Result, p: &Packages, total_time: usize) -> bool {
    &&& result.total_time == total_time
    &&& reported(result.modules@, p, DETECT_KINDS as nat)
    &&& forall|i: int|
        0 <= i < result.modules@.len() ==> (#[trigger] result.modules@[i]).1.status == status_of(
            result.modules@[i].1,
        )
    &&& result.modules_status.pass@ == names_by_status(
        result.modules@,
        Status::Pass,
        result.modules@.len(),
    )
    &&& result.modules_status.wrong@ == names_by_status(
        result.modules@,
        Status::Wrong,
        result.modules@.len(),
    )
}

impl Detectors {
    /// Runs the detector of the kind at place `k` on every module and
    /// merges what it finds into the result.
    pub fn run_kind(&mut self, packages: &Packages, kind: DetectKind, k: usize)
        requires
            old(self).wf(),
            all_ready(packages),
            packages.names().no_duplicates(),
            k < DETECT_KINDS,
            kind == kind_at(k as int),
            reported(old(self).result.modules@, packages, k as nat),
        ensures
            final(self).wf(),
            final(self).args == old(self).args,
            final(self).result.modules_status == old(self).result.modules_status,
            final(self).result.total_time == old(self).result.total_time,
            reported(final(self).result.modules@, packages, (k + 1) as nat),
    {
        let found = run_detector(kind, packages);
        let content = DetectContent { severity: Severity::Minor, kind, result: found };
        let ghost names = self.result.names();
        let ghost was = self.result.modules@;
        proof {
            assert(names =~= packages.names()) by {
                assert forall|i: int| 0 <= i < names.len() implies names[i]
                    == packages.names()[i] by {
                    assert(module_reported(
                        was[i],
                        &packages.packages@[i].1,
                        packages.packages@[i].0,
                        k as nat,
                    ));
                }
            }
            assert forall|e: int| 0 <= e < content.result@.len() implies names.contains(
                #[trigger] content.result@[e].0@,
            ) by {
                assert(is_finding_of(content.result@[e], kind, packages, e));
                assert(names[e] == content.result@[e].0@);
            }
        }
        self.merge_result(&content);
        proof {
            assert forall|i: int| 0 <= i < self.result.modules@.len() implies module_reported(
                #[trigger] self.result.modules@[i],
                &packages.packages@[i].1,
                packages.packages@[i].0,
                (k + 1) as nat,
            ) by {
                let now = self.result.modules@[i];
                let g = &packages.packages@[i].1;
                assert(module_reported(was[i], g, packages.packages@[i].0, k as nat));
                assert(is_first(names, names[i], i));
                assert forall|j: int| 0 <= j < content.result@.len() implies (
                #[trigger] content.result@[j]).0@ == names[j] by {
                    assert(is_finding_of(content.result@[j], kind, packages, j));
                }
                lemma_findings_of_distinct(content.result@, names, i, content.result@.len());
                let added = content.result@[i].1@;
                assert(grown(now, was[i], kind, added));
                assert(is_finding_of(content.result@[i], kind, packages, i));
                assert(kind.spec_index() == k);
                assert forall|j: int| 0 <= j < DETECT_KINDS implies list_reported(
                    #[trigger] now.1.detectors@[j],
                    g,
                    j,
                    (k + 1) as nat,
                ) by {
                    assert(list_reported(was[i].1.detectors@[j], g, j, k as nat));
                    if j == k {
                        assert(texts(was[i].1.detectors@[j]@).len() == 0);
                        assert(was[i].1.detectors@[j]@.len() == 0);
                        assert(now.1.detectors@[j]@ =~= added);
                    }
                }
            }
        }
    }

    /// Runs the suite on the package: starts the result, runs each
    /// detector and merges what it finds, then gives every module its
    /// status. A module passes exactly if no detector found anything in
    /// it.
    #[verifier::loop_isolation(false)]
    pub fn run(&mut self, packages: &Packages, total_time: usize)
        requires
            all_ready(packages),
            packages.names().no_duplicates(),
        ensures
            final(self).args == old(self).args,
            final(self).wf(),
            is_suite_result(final(self).result, packages, total_time),
            forall|i: int|
                0 <= i < final(self).result.modules@.len() ==> ((
                #[trigger] final(self).result.modules@[i]).1.status == Status::Pass
                    <==> final(self).result.modules@[i].1.findings(DETECT_KINDS as nat) == 0),
    {
        self.init_result(packages);
        let kinds = DetectKind::all();
        let mut k: usize = 0;
        while k < DETECT_KINDS
            invariant
                k <= DETECT_KINDS,
                self.wf(),
                self.args == old(self).args,
                reported(self.result.modules@, packages, k as nat),
            decreases DETECT_KINDS - k,
        {
            let kind = kinds[k];
            assert(kind.spec_index() == k);
            self.run_kind(packages, kind, k);
            k += 1;
        }
        let ghost was = self.result.modules@;
        self.complete_result(total_time);
        proof {
            assert forall|i: int| 0 <= i < self.result.modules@.len() implies module_reported(
                #[trigger] self.result.modules@[i],
                &packages.packages@[i].1,
                packages.packages@[i].0,
                DETECT_KINDS as nat,
            ) by {
                assert(module_reported(
                    was[i],
                    &packages.packages@[i].1,
                    packages.packages@[i].0,
                    DETECT_KINDS as nat,
                ));
            }
            assert forall|i: int| 0 <= i < self.result.modules@.len() implies (
            #[trigger] self.result.modules@[i]).1.status == status_of(
                self.result.modules@[i].1,
            ) by {
                assert(self.result.modules@[i].1.detectors == was[i].1.detectors);
            }
        }
    }
}

impl Detectors {
    /// Lifts and analyses the modules `cms` and runs the suite on them.
    /// `false`, with the result as it was, where a module cannot be lifted
    /// or a function cannot be analysed.
    pub fn try_run(&mut self, cms: &Vec<CompiledModule>, total_time: usize) -> (done: bool)
        ensures
            final(self).args == old(self).args,
            done == buildable(cms@),
            done ==> final(self).wf() && exists|p: Packages|
                {
                    &&& p.wf()
                    &&& #[trigger] p.lifted_from(cms@, cms@.len())
                    &&& p.analysed()
                    &&& is_suite_result(final(self).result, &p, total_time)
                },
            !done ==> final(self).result == old(self).result,
    {
        match Packages::try_new(cms) {
            Some(packages) => {
                proof {
                    lemma_built_is_ready(&packages, cms@);
                }
                self.run(&packages, total_time);
                true
            },
            None => false,
        }
    }
}

/// Two runs of the suite on one package report the same: the same
/// findings in the same order for every module and kind, and the same
/// status.
pub proof fn lemma_suite_repeats(
    a: Result,
    b: Result,
    p: &Packages,
    time_a: usize,
    time_b: usize,
)
    requires
        is_suite_result(a, p, time_a),
        is_suite_result(b, p, time_b),
    ensures
        a.modules@.len() == b.modules@.len(),
        forall|i: int|
            0 <= i < a.modules@.len() ==> {
                &&& (#[trigger] a.modules@[i]).0 == b.modules@[i].0
                &&& a.modules@[i].1.status == b.modules@[i].1.status
                &&& a.modules@[i].1.function_count == b.modules@[i].1.function_count
                &&& a.modules@[i].1.constant_count == b.modules@[i].1.constant_count
                &&& forall|k: int|
                    0 <= k < DETECT_KINDS ==> texts(#[trigger] a.modules@[i].1.detectors@[k]@)
                        == texts(b.modules@[i].1.detectors@[k]@)
            },
{
    assert forall|i: int| 0 <= i < a.modules@.len() implies {
        &&& (#[trigger] a.modules@[i]).0 == b.modules@[i].0
        &&& a.modules@[i].1.status == b.modules@[i].1.status
        &&& a.modules@[i].1.function_count == b.modules@[i].1.function_count
        &&& a.modules@[i].1.constant_count == b.modules@[i].1.constant_count
        &&& forall|k: int|
            0 <= k < DETECT_KINDS ==> texts(#[trigger] a.modules@[i].1.detectors@[k]@) == texts(
                b.modules@[i].1.detectors@[k]@,
            )
    } by {
        let x = a.modules@[i].1;
        let y = b.modules@[i].1;
        let g = &p.packages@[i].1;
        assert(module_reported(a.modules@[i], g, p.packages@[i].0, DETECT_KINDS as nat));
        assert(module_reported(b.modules@[i], g, p.packages@[i].0, DETECT_KINDS as nat));
        assert forall|k: int| 0 <= k < DETECT_KINDS implies texts(#[trigger] x.detectors@[k]@)
            == texts(y.detectors@[k]@) by {
            assert(list_reported(x.detectors@[k], g, k, DETECT_KINDS as nat));
            assert(list_reported(y.detectors@[k], g, k, DETECT_KINDS as nat));
        }
        assert(x.is_clean() == y.is_clean()) by {
            assert(x.wf() && y.wf());
            if x.is_clean() {
                assert forall|k: int| 0 <= k < DETECT_KINDS implies (
                #[trigger] y.detectors@[k])@.len() == 0 by {
                    assert(x.detectors@[k]@.len() == 0);
                    assert(texts(x.detectors@[k]@).len() == texts(y.detectors@[k]@).len());
                }
            }
            if y.is_clean() {
                assert forall|k: int| 0 <= k < DETECT_KINDS implies (
                #[trigger] x.detectors@[k])@.len() == 0 by {
                    assert(y.detectors@[k]@.len() == 0);
                    assert(texts(x.detectors@[k]@).len() == texts(y.detectors@[k]@).len());
                }
            }
        }
        assert(a.modules@[i].1.status == status_of(x));
        assert(b.modules@[i].1.status == status_of(y));
    }
}

} // verus!
