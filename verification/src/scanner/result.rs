use vstd::prelude::*;
use vstd::string::StringExecFns;

verus! {

pub type ModuleName = String;

pub type FunctionName = String;

/// A path and a line number, as `path:line`.
pub type Location = String;

/// Whether the detectors found nothing in a module, or something.
#[derive(Clone, Copy, Debug, PartialEq, Eq, Structural, Hash)]
pub enum Status {
    Pass,
    Wrong,
}

/// The classes of defect that the detectors report.
#[derive(Clone, Copy, Debug, PartialEq, Eq, Structural, Hash)]
pub enum DetectKind {
    UncheckedReturn,
    Overflow,
    PrecisionLoss,
    InfiniteLoop,
    UnnecessaryTypeConversion,
    UnnecessaryBoolJudgment,
    UnusedConstant,
    UnusedPrivateFunctions,
    RecursiveFunctionCall,
}

#[derive(Clone, Copy, Debug, PartialEq, Eq, Structural, Hash)]
pub enum FunctionType {
    All,
    Native,
}

#[derive(Clone, Copy, Debug, PartialEq, Eq, Structural, Hash)]
pub enum Severity {
    Info,
    Minor,
    Medium,
    Major,
    Critical,
}

/// The number of classes of defect.
pub const DETECT_KINDS: usize = 9;

impl Status {
    /// The name of the status in reports.
    pub fn name(&self) -> (r: String)
        ensures
            r@ == match self {
                Status::Pass => "pass"@,
                Status::Wrong => "wrong"@,
            },
    {
        match self {
            Status::Pass => String::from_str("pass"),
            Status::Wrong => String::from_str("wrong"),
        }
    }
}

impl DetectKind {
    /// The place of the kind among all kinds.
    pub open spec fn spec_index(self) -> int {
        match self {
            DetectKind::UncheckedReturn => 0,
            DetectKind::Overflow => 1,
            DetectKind::PrecisionLoss => 2,
            DetectKind::InfiniteLoop => 3,
            DetectKind::UnnecessaryTypeConversion => 4,
            DetectKind::UnnecessaryBoolJudgment => 5,
            DetectKind::UnusedConstant => 6,
            DetectKind::UnusedPrivateFunctions => 7,
            DetectKind::RecursiveFunctionCall => 8,
        }
    }

    pub fn index(self) -> (r: usize)
        ensures
            r == self.spec_index(),
            r < DETECT_KINDS,
    {
        match self {
            DetectKind::UncheckedReturn => 0,
            DetectKind::Overflow => 1,
            DetectKind::PrecisionLoss => 2,
            DetectKind::InfiniteLoop => 3,
            DetectKind::UnnecessaryTypeConversion => 4,
            DetectKind::UnnecessaryBoolJudgment => 5,
            DetectKind::UnusedConstant => 6,
            DetectKind::UnusedPrivateFunctions => 7,
            DetectKind::RecursiveFunctionCall => 8,
        }
    }

    /// Every kind, in the order of their places.
    pub fn all() -> (r: Vec<DetectKind>)
        ensures
            r@.len() == DETECT_KINDS,
            forall|i: int| 0 <= i < r@.len() ==> (#[trigger] r@[i]).spec_index() == i,
    {
        vec![
            DetectKind::UncheckedReturn,
            DetectKind::Overflow,
            DetectKind::PrecisionLoss,
            DetectKind::InfiniteLoop,
            DetectKind::UnnecessaryTypeConversion,
            DetectKind::UnnecessaryBoolJudgment,
            DetectKind::UnusedConstant,
            DetectKind::UnusedPrivateFunctions,
            DetectKind::RecursiveFunctionCall,
        ]
    }

    /// The name of the kind in reports.
    pub fn name(&self) -> (r: String)
        ensures
            r@ == match self {
                DetectKind::UncheckedReturn => "unchecked_return"@,
                DetectKind::Overflow => "overflow"@,
                DetectKind::PrecisionLoss => "precision_loss"@,
                DetectKind::InfiniteLoop => "infinite_loop"@,
                DetectKind::UnnecessaryTypeConversion => "unnecessary_type_conversion"@,
                DetectKind::UnnecessaryBoolJudgment => "unnecessary_bool_judgment"@,
                DetectKind::UnusedConstant => "unused_constant"@,
                DetectKind::UnusedPrivateFunctions => "unused_private_functions"@,
                DetectKind::RecursiveFunctionCall => "recursive_function_call"@,
            },
    {
        match self {
            DetectKind::UncheckedReturn => String::from_str("unchecked_return"),
            DetectKind::Overflow => String::from_str("overflow"),
            DetectKind::PrecisionLoss => String::from_str("precision_loss"),
            DetectKind::InfiniteLoop => String::from_str("infinite_loop"),
            DetectKind::UnnecessaryTypeConversion => String::from_str(
                "unnecessary_type_conversion",
            ),
            DetectKind::UnnecessaryBoolJudgment => String::from_str("unnecessary_bool_judgment"),
            DetectKind::UnusedConstant => String::from_str("unused_constant"),
            DetectKind::UnusedPrivateFunctions => String::from_str("unused_private_functions"),
            DetectKind::RecursiveFunctionCall => String::from_str("recursive_function_call"),
        }
    }
}

/// `i` is the first place in `names` that holds `name`.
pub open spec fn is_first(names: Seq<Seq<char>>, name: Seq<char>, i: int) -> bool {
    &&& 0 <= i < names.len()
    &&& names[i] == name
    &&& forall|j: int| 0 <= j < i ==> names[j] != name
}

/// What one detector found: for each module it looked at, the findings in
/// the order in which they were made.
pub struct DetectContent {
    pub severity: Severity,
    pub kind: DetectKind,
    pub result: Vec<(ModuleName, Vec<String>)>,
}

impl DetectContent {
    pub fn new(severity: Severity, kind: DetectKind) -> (r: Self)
        ensures
            r.severity == severity,
            r.kind == kind,
            r.result@.len() == 0,
    {
        Self { severity, kind, result: Vec::new() }
    }

    /// The names of the modules looked at, in order.
    pub open spec fn names(&self) -> Seq<Seq<char>> {
        Seq::new(self.result@.len(), |i: int| self.result@[i].0@)
    }

    /// The place of the module `mname`, if the detector has looked at it.
    pub fn find(&self, mname: &String) -> (r: Option<usize>)
        ensures
            match r {
                Some(i) => is_first(self.names(), mname@, i as int),
                None => !self.names().contains(mname@),
            },
    {
        let mut i: usize = 0;
        while i < self.result.len()
            invariant
                i <= self.result.len(),
                forall|j: int| 0 <= j < i ==> self.names()[j] != mname@,
            decreases self.result.len() - i,
        {
            if self.result[i].0 == *mname {
                assert(self.names()[i as int] == mname@);
                return Some(i);
            }
            i += 1;
        }
        None
    }

    /// Starts the findings of the module `mname` afresh: empties them if
    /// the detector has looked at the module, else adds the module with no
    /// finding.
    pub fn insert(&mut self, mname: String)
        ensures
            final(self).severity == old(self).severity,
            final(self).kind == old(self).kind,
            final(self).names() == if old(self).names().contains(mname@) {
                old(self).names()
            } else {
                old(self).names().push(mname@)
            },
            forall|i: int|
                is_first(final(self).names(), mname@, i) ==> (#[trigger] final(self).result@[i]).1@.len()
                    == 0,
            forall|i: int|
                0 <= i < old(self).result@.len() && !is_first(old(self).names(), mname@, i)
                    ==> #[trigger] final(self).result@[i] == old(self).result@[i],
    {
        match self.find(&mname) {
            Some(i) => {
                let mut entry: (String, Vec<String>) = (String::new(), Vec::new());
                std::mem::swap(&mut self.result[i], &mut entry);
                self.result[i] = (entry.0, Vec::new());
                assert(self.names() =~= old(self).names());
            },
            None => {
                self.result.push((mname, Vec::new()));
                assert(self.names() =~= old(self).names().push(mname@));
                assert forall|i: int| is_first(self.names(), mname@, i) implies (
                #[trigger] self.result@[i]).1@.len() == 0 by {
                    if i < old(self).result@.len() {
                        assert(old(self).names()[i] == mname@);
                    }
                }
            },
        }
    }

    /// Adds a finding to the module at place `i`.
    pub fn push(&mut self, i: usize, finding: String)
        requires
            i < old(self).result@.len(),
        ensures
            final(self).severity == old(self).severity,
            final(self).kind == old(self).kind,
            final(self).result@.len() == old(self).result@.len(),
            final(self).names() == old(self).names(),
            final(self).result@[i as int].1@ == old(self).result@[i as int].1@.push(finding),
            forall|j: int|
                0 <= j < old(self).result@.len() && j != i ==> final(self).result@[j] == old(self).result@[j],
    {
        let mut entry: (String, Vec<String>) = (String::new(), Vec::new());
        std::mem::swap(&mut self.result[i], &mut entry);
        let (name, mut findings) = entry;
        findings.push(finding);
        self.result[i] = (name, findings);
        assert(self.names() =~= old(self).names());
    }
}

/// The number of functions of a module: all of them, and the native ones
/// among them.
#[derive(Clone, Copy, Debug, PartialEq, Eq, Structural)]
pub struct FunctionCount {
    pub all: usize,
    pub native: usize,
}

impl FunctionCount {
    pub fn get(&self, ty: FunctionType) -> (r: usize)
        ensures
            r == match ty {
                FunctionType::All => self.all,
                FunctionType::Native => self.native,
            },
    {
        match ty {
            FunctionType::All => self.all,
            FunctionType::Native => self.native,
        }
    }
}

/// What the detectors found in one module.
pub struct ModuleInfo {
    pub status: Status,
    pub location: Option<Location>,
    pub function_count: FunctionCount,
    pub constant_count: usize,
    /// The findings of each kind, by the place of the kind.
    pub detectors: Vec<Vec<String>>,
}

impl ModuleInfo {
    /// There is a list of findings for each kind.
    pub open spec fn wf(&self) -> bool {
        self.detectors@.len() == DETECT_KINDS
    }

    /// No detector found anything.
    pub open spec fn is_clean(&self) -> bool {
        forall|k: int| 0 <= k < self.detectors@.len() ==> (#[trigger] self.detectors@[k])@.len() == 0
    }

    /// The number of findings of the first `n` kinds.
    pub open spec fn findings(&self, n: nat) -> nat
        decreases n,
    {
        if n == 0 {
            0
        } else {
            self.findings((n - 1) as nat) + self.detectors@[n - 1]@.len()
        }
    }

    pub fn new(
        status: Status,
        location: Option<Location>,
        function_count: FunctionCount,
        constant_count: usize,
        detectors: Vec<Vec<String>>,
    ) -> (r: Self)
        ensures
            r.status == status,
            r.location == location,
            r.function_count == function_count,
            r.constant_count == constant_count,
            r.detectors == detectors,
    {
        Self { status, location, function_count, constant_count, detectors }
    }

    /// A module with no function, no constant and no finding, not yet
    /// classified.
    pub fn empty() -> (r: Self)
        ensures
            r.wf(),
            r.is_clean(),
            r.status == Status::Wrong,
            r.location is None,
            r.function_count == (FunctionCount { all: 0, native: 0 }),
            r.constant_count == 0,
    {
        let mut detectors: Vec<Vec<String>> = Vec::new();
        let mut k: usize = 0;
        while k < DETECT_KINDS
            invariant
                k <= DETECT_KINDS,
                detectors@.len() == k,
                forall|j: int| 0 <= j < k ==> (#[trigger] detectors@[j])@.len() == 0,
            decreases DETECT_KINDS - k,
        {
            detectors.push(Vec::new());
            k += 1;
        }
        Self::new(Status::Wrong, None, FunctionCount { all: 0, native: 0 }, 0, detectors)
    }

    /// The findings of one kind.
    pub fn get(&self, kind: DetectKind) -> (r: &Vec<String>)
        requires
            self.wf(),
        ensures
            r == self.detectors@[kind.spec_index()],
    {
        &self.detectors[kind.index()]
    }

    /// Whether no detector found anything.
    pub fn check_clean(&self) -> (r: bool)
        ensures
            r == self.is_clean(),
    {
        let mut k: usize = 0;
        while k < self.detectors.len()
            invariant
                k <= self.detectors.len(),
                forall|j: int| 0 <= j < k ==> (#[trigger] self.detectors@[j])@.len() == 0,
            decreases self.detectors.len() - k,
        {
            if self.detectors[k].len() != 0 {
                return false;
            }
            k += 1;
        }
        true
    }
}

/// The names of the modules that passed and of those that did not.
pub struct ModulesStatus {
    pub pass: Vec<String>,
    pub wrong: Vec<String>,
}

impl ModulesStatus {
    pub fn get(&self, status: Status) -> (r: &Vec<String>)
        ensures
            r == match status {
                Status::Pass => self.pass,
                Status::Wrong => self.wrong,
            },
    {
        match status {
            Status::Pass => &self.pass,
            Status::Wrong => &self.wrong,
        }
    }
}

/// The outcome of a run: every module with what was found in it, the
/// modules by status, and the time the run took in microseconds.
pub struct Result {
    pub modules_status: ModulesStatus,
    pub total_time: usize,
    pub modules: Vec<(ModuleName, ModuleInfo)>,
}

impl Result {
    /// The names of the modules, in the order in which they were added.
    pub open spec fn names(&self) -> Seq<Seq<char>> {
        Seq::new(self.modules@.len(), |i: int| self.modules@[i].0@)
    }

    pub fn new(
        modules_status: ModulesStatus,
        total_time: usize,
        modules: Vec<(ModuleName, ModuleInfo)>,
    ) -> (r: Self)
        ensures
            r.modules_status == modules_status,
            r.total_time == total_time,
            r.modules == modules,
    {
        Self { modules_status, total_time, modules }
    }

    pub fn empty() -> (r: Self)
        ensures
            r.modules_status.pass@.len() == 0,
            r.modules_status.wrong@.len() == 0,
            r.total_time == 0,
            r.modules@.len() == 0,
    {
        Self::new(ModulesStatus { pass: Vec::new(), wrong: Vec::new() }, 0, Vec::new())
    }

    /// The place of the module `module_name`, if the result holds it.
    pub fn find(&self, module_name: &String) -> (r: Option<usize>)
        ensures
            match r {
                Some(i) => is_first(self.names(), module_name@, i as int),
                None => !self.names().contains(module_name@),
            },
    {
        let mut i: usize = 0;
        while i < self.modules.len()
            invariant
                i <= self.modules.len(),
                forall|j: int| 0 <= j < i ==> self.names()[j] != module_name@,
            decreases self.modules.len() - i,
        {
            if self.modules[i].0 == *module_name {
                assert(self.names()[i as int] == module_name@);
                return Some(i);
            }
            i += 1;
        }
        None
    }

    /// Records `module_info` under `module_name`: in the place of the
    /// module of that name if there is one, else behind all others.
    pub fn add_module(&mut self, module_name: ModuleName, module_info: ModuleInfo)
        ensures
            final(self).modules_status == old(self).modules_status,
            final(self).total_time == old(self).total_time,
            forall|i: int|
                is_first(old(self).names(), module_name@, i) ==> final(self).modules@ == old(self).modules@.update(i, (old(self).modules@[i].0, module_info)),
            !old(self).names().contains(module_name@) ==> final(self).modules@ == old(self).modules@.push((module_name, module_info)),
    {
        match self.find(&module_name) {
            Some(i) => {
                let mut entry: (String, ModuleInfo) = (String::new(), module_info);
                std::mem::swap(&mut self.modules[i], &mut entry);
                let mut back: (String, ModuleInfo) = (String::new(), module_info_of(entry.1));
                let name = entry.0;
                std::mem::swap(&mut self.modules[i], &mut back);
                self.modules[i] = (name, back.1);
                assert(self.modules@ =~= old(self).modules@.update(
                    i as int,
                    (old(self).modules@[i as int].0, module_info),
                ));
            },
            None => {
                self.modules.push((module_name, module_info));
            },
        }
    }
}

fn module_info_of(m: ModuleInfo) -> (r: ModuleInfo)
    ensures
        r == m,
{
    m
}

} // verus!
