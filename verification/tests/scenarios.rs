use move_scanner::cli::parser::Args;
use move_scanner::move_ir::file_format::{
    CodeUnit, CompiledModule, FunctionDefinition, FunctionHandle, ModuleHandle, MoveBytecode,
    Signature, SignatureToken, Visibility,
};
use move_scanner::move_ir::generate_bytecode::StacklessBytecodeGenerator;
use move_scanner::move_ir::packages::Packages;
use move_scanner::move_ir::u256::U256;
use move_scanner::scanner::detects::common::{find_in_function, find_in_module};
use move_scanner::scanner::detects::detect1::detect_unchecked_return;
use move_scanner::scanner::detects::detect4::detect_infinite_loop;
use move_scanner::scanner::detectors::Detectors;
use move_scanner::scanner::result::{DetectKind, ModuleInfo, Status};

struct Fun {
    name: &'static str,
    params: Vec<SignatureToken>,
    returns: Vec<SignatureToken>,
    locals: Vec<SignatureToken>,
    code: Option<Vec<MoveBytecode>>,
    visibility: Visibility,
    is_entry: bool,
}

fn public(name: &'static str, code: Vec<MoveBytecode>) -> Fun {
    Fun {
        name,
        params: vec![],
        returns: vec![],
        locals: vec![],
        code: Some(code),
        visibility: Visibility::Public,
        is_entry: false,
    }
}

fn module(name: &str, funs: Vec<Fun>) -> CompiledModule {
    let mut identifiers = vec![name.to_string()];
    let mut signatures = Vec::new();
    let mut function_handles = Vec::new();
    let mut function_defs = Vec::new();
    for (i, f) in funs.into_iter().enumerate() {
        let i = i as u16;
        identifiers.push(f.name.to_string());
        signatures.push(Signature(f.params));
        signatures.push(Signature(f.returns));
        signatures.push(Signature(f.locals));
        function_handles.push(FunctionHandle {
            module: 0,
            name: 1 + i,
            parameters: 3 * i,
            return_: 3 * i + 1,
            type_parameters: 0,
        });
        function_defs.push(FunctionDefinition {
            function: i,
            visibility: f.visibility,
            is_entry: f.is_entry,
            code: f.code.map(|code| CodeUnit { locals: 3 * i + 2, code }),
        });
    }
    CompiledModule {
        self_module_handle_idx: 0,
        module_handles: vec![ModuleHandle { address: 0, name: 0 }],
        struct_handles: vec![],
        function_handles,
        field_handles: vec![],
        struct_def_instantiations: vec![],
        function_instantiations: vec![],
        field_instantiations: vec![],
        signatures,
        identifiers,
        address_identifiers: vec![U256::new(1)],
        constant_pool: vec![],
        struct_defs: vec![],
        function_defs,
    }
}

fn args() -> Args {
    Args { path: String::new(), output: None, none: false, json: false, ir_type: None }
}

fn scan(cms: &Vec<CompiledModule>) -> Detectors {
    let mut suite = Detectors::new(args());
    assert!(suite.try_run(cms, 7));
    suite
}

fn found(info: &ModuleInfo, kind: DetectKind) -> Vec<String> {
    info.detectors[kind.index()].clone()
}

fn none() -> Vec<String> {
    Vec::new()
}

#[test]
fn unchecked_return_names_caller_and_callee() {
    let pair = Fun {
        name: "f",
        params: vec![],
        returns: vec![SignatureToken::U8, SignatureToken::U8],
        locals: vec![],
        code: Some(vec![MoveBytecode::LdU8(1), MoveBytecode::LdU8(2), MoveBytecode::Ret]),
        visibility: Visibility::Public,
        is_entry: false,
    };
    let caller = public(
        "caller",
        vec![MoveBytecode::Call(0), MoveBytecode::Pop, MoveBytecode::Pop, MoveBytecode::Ret],
    );
    let cms = vec![module("m", vec![pair, caller])];
    let suite = scan(&cms);
    let info = &suite.result.modules[0].1;
    assert_eq!(found(info, DetectKind::UncheckedReturn), vec!["caller(f)".to_string()]);
    assert_eq!(info.status, Status::Wrong);
}

#[test]
fn unchecked_return_lists_callees_sorted_and_once() {
    let one = |name: &'static str| Fun {
        name,
        params: vec![],
        returns: vec![SignatureToken::U8],
        locals: vec![],
        code: Some(vec![MoveBytecode::LdU8(1), MoveBytecode::Ret]),
        visibility: Visibility::Public,
        is_entry: false,
    };
    let caller = public(
        "caller",
        vec![
            MoveBytecode::Call(1),
            MoveBytecode::Pop,
            MoveBytecode::Call(0),
            MoveBytecode::Pop,
            MoveBytecode::Call(1),
            MoveBytecode::Pop,
            MoveBytecode::Ret,
        ],
    );
    let cms = vec![module("m", vec![one("alpha"), one("beta"), caller])];
    let suite = scan(&cms);
    let info = &suite.result.modules[0].1;
    assert_eq!(found(info, DetectKind::UncheckedReturn), vec!["caller(alpha,beta)".to_string()]);
}

#[test]
fn call_without_results_is_never_unchecked() {
    let callee = public("f", vec![MoveBytecode::Ret]);
    let caller = public(
        "caller",
        vec![MoveBytecode::Call(0), MoveBytecode::LdU8(1), MoveBytecode::Pop, MoveBytecode::Ret],
    );
    let cms = vec![module("m", vec![callee, caller])];
    let suite = scan(&cms);
    let info = &suite.result.modules[0].1;
    assert_eq!(found(info, DetectKind::UncheckedReturn), none());
}

#[test]
fn used_result_is_not_unchecked() {
    let callee = Fun {
        name: "f",
        params: vec![],
        returns: vec![SignatureToken::U8],
        locals: vec![],
        code: Some(vec![MoveBytecode::LdU8(1), MoveBytecode::Ret]),
        visibility: Visibility::Public,
        is_entry: false,
    };
    let caller = Fun {
        name: "caller",
        params: vec![],
        returns: vec![],
        locals: vec![SignatureToken::U8],
        code: Some(vec![MoveBytecode::Call(0), MoveBytecode::StLoc(0), MoveBytecode::Ret]),
        visibility: Visibility::Public,
        is_entry: false,
    };
    let cms = vec![module("m", vec![callee, caller])];
    let suite = scan(&cms);
    assert_eq!(found(&suite.result.modules[0].1, DetectKind::UncheckedReturn), none());
}

#[test]
fn shift_of_255_by_one_overflows_u8() {
    let f = public(
        "shifty",
        vec![
            MoveBytecode::LdU8(255),
            MoveBytecode::LdU8(1),
            MoveBytecode::Shl,
            MoveBytecode::Pop,
            MoveBytecode::Ret,
        ],
    );
    let cms = vec![module("m", vec![f])];
    let suite = scan(&cms);
    let info = &suite.result.modules[0].1;
    assert_eq!(found(info, DetectKind::Overflow), vec!["shifty".to_string()]);
    assert_eq!(info.status, Status::Wrong);
}

#[test]
fn shift_of_127_by_one_fits_u8() {
    let f = public(
        "shifty",
        vec![
            MoveBytecode::LdU8(127),
            MoveBytecode::LdU8(1),
            MoveBytecode::Shl,
            MoveBytecode::Pop,
            MoveBytecode::Ret,
        ],
    );
    let cms = vec![module("m", vec![f])];
    let suite = scan(&cms);
    assert_eq!(found(&suite.result.modules[0].1, DetectKind::Overflow), none());
}

#[test]
fn shift_by_constant_zero_never_overflows() {
    let f = public(
        "shifty",
        vec![
            MoveBytecode::LdU8(255),
            MoveBytecode::LdU8(0),
            MoveBytecode::Shl,
            MoveBytecode::Pop,
            MoveBytecode::LdU64(u64::MAX),
            MoveBytecode::LdU8(0),
            MoveBytecode::Shl,
            MoveBytecode::Pop,
            MoveBytecode::Ret,
        ],
    );
    let cms = vec![module("m", vec![f])];
    let suite = scan(&cms);
    assert_eq!(found(&suite.result.modules[0].1, DetectKind::Overflow), none());
}

#[test]
fn shift_of_a_parameter_is_bounded_by_its_type() {
    let f = Fun {
        name: "shifty",
        params: vec![SignatureToken::U64],
        returns: vec![],
        locals: vec![],
        code: Some(vec![
            MoveBytecode::CopyLoc(0),
            MoveBytecode::LdU8(1),
            MoveBytecode::Shl,
            MoveBytecode::Pop,
            MoveBytecode::Ret,
        ]),
        visibility: Visibility::Public,
        is_entry: false,
    };
    let cms = vec![module("m", vec![f])];
    let suite = scan(&cms);
    assert_eq!(found(&suite.result.modules[0].1, DetectKind::Overflow), vec!["shifty".to_string()]);
}

fn three_u64(name: &'static str, code: Vec<MoveBytecode>) -> Fun {
    Fun {
        name,
        params: vec![SignatureToken::U64, SignatureToken::U64, SignatureToken::U64],
        returns: vec![],
        locals: vec![],
        code: Some(code),
        visibility: Visibility::Public,
        is_entry: false,
    }
}

#[test]
fn product_of_a_quotient_loses_precision() {
    let f = three_u64(
        "scale",
        vec![
            MoveBytecode::CopyLoc(0),
            MoveBytecode::CopyLoc(1),
            MoveBytecode::Div,
            MoveBytecode::CopyLoc(2),
            MoveBytecode::Mul,
            MoveBytecode::Pop,
            MoveBytecode::Ret,
        ],
    );
    let cms = vec![module("m", vec![f])];
    let suite = scan(&cms);
    assert_eq!(found(&suite.result.modules[0].1, DetectKind::PrecisionLoss), vec!["scale".to_string()]);
}

#[test]
fn quotient_of_a_product_keeps_precision() {
    let f = three_u64(
        "scale",
        vec![
            MoveBytecode::CopyLoc(0),
            MoveBytecode::CopyLoc(2),
            MoveBytecode::Mul,
            MoveBytecode::CopyLoc(1),
            MoveBytecode::Div,
            MoveBytecode::Pop,
            MoveBytecode::Ret,
        ],
    );
    let cms = vec![module("m", vec![f])];
    let suite = scan(&cms);
    assert_eq!(found(&suite.result.modules[0].1, DetectKind::PrecisionLoss), none());
}

fn root(name: &'static str) -> Fun {
    Fun {
        name,
        params: vec![SignatureToken::U64],
        returns: vec![SignatureToken::U64],
        locals: vec![],
        code: Some(vec![MoveBytecode::CopyLoc(0), MoveBytecode::Ret]),
        visibility: Visibility::Public,
        is_entry: false,
    }
}

fn times_root() -> Fun {
    three_u64(
        "scale",
        vec![
            MoveBytecode::CopyLoc(0),
            MoveBytecode::Call(0),
            MoveBytecode::CopyLoc(1),
            MoveBytecode::Mul,
            MoveBytecode::Pop,
            MoveBytecode::Ret,
        ],
    )
}

#[test]
fn product_of_a_square_root_loses_precision() {
    let cms = vec![module("m", vec![root("sqrt"), times_root()])];
    let suite = scan(&cms);
    assert_eq!(found(&suite.result.modules[0].1, DetectKind::PrecisionLoss), vec!["scale".to_string()]);
}

#[test]
fn only_the_exact_name_counts_as_square_root() {
    let cms = vec![module("m", vec![root("sqrt2"), times_root()])];
    let suite = scan(&cms);
    assert_eq!(found(&suite.result.modules[0].1, DetectKind::PrecisionLoss), none());
}

fn counter(name: &'static str, code: Vec<MoveBytecode>) -> Fun {
    Fun {
        name,
        params: vec![],
        returns: vec![],
        locals: vec![SignatureToken::U64],
        code: Some(code),
        visibility: Visibility::Public,
        is_entry: false,
    }
}

#[test]
fn loop_that_never_changes_its_condition_is_infinite() {
    let f = counter(
        "spin",
        vec![
            MoveBytecode::LdU64(0),
            MoveBytecode::StLoc(0),
            MoveBytecode::CopyLoc(0),
            MoveBytecode::LdU64(10),
            MoveBytecode::Lt,
            MoveBytecode::BrFalse(11),
            MoveBytecode::CopyLoc(0),
            MoveBytecode::LdU64(0),
            MoveBytecode::Add,
            MoveBytecode::Pop,
            MoveBytecode::Branch(2),
            MoveBytecode::Ret,
        ],
    );
    let cms = vec![module("m", vec![f])];
    let suite = scan(&cms);
    assert_eq!(found(&suite.result.modules[0].1, DetectKind::InfiniteLoop), vec!["spin".to_string()]);
}

#[test]
fn loop_that_counts_up_is_not_infinite() {
    let f = counter(
        "count",
        vec![
            MoveBytecode::LdU64(0),
            MoveBytecode::StLoc(0),
            MoveBytecode::CopyLoc(0),
            MoveBytecode::LdU64(10),
            MoveBytecode::Lt,
            MoveBytecode::BrFalse(11),
            MoveBytecode::CopyLoc(0),
            MoveBytecode::LdU64(1),
            MoveBytecode::Add,
            MoveBytecode::StLoc(0),
            MoveBytecode::Branch(2),
            MoveBytecode::Ret,
        ],
    );
    let cms = vec![module("m", vec![f])];
    let suite = scan(&cms);
    assert_eq!(found(&suite.result.modules[0].1, DetectKind::InfiniteLoop), none());
}

#[test]
fn function_without_a_loop_is_not_infinite() {
    let f = counter("plain", vec![MoveBytecode::LdU64(0), MoveBytecode::StLoc(0), MoveBytecode::Ret]);
    let cms = vec![module("m", vec![f])];
    let suite = scan(&cms);
    let info = &suite.result.modules[0].1;
    assert_eq!(found(info, DetectKind::InfiniteLoop), none());
}

#[test]
fn mutual_recursion_is_reported_once() {
    let f = public("f", vec![MoveBytecode::Call(1), MoveBytecode::Ret]);
    let g = public("g", vec![MoveBytecode::Call(0), MoveBytecode::Ret]);
    let cms = vec![module("m", vec![f, g])];
    let suite = scan(&cms);
    let info = &suite.result.modules[0].1;
    assert_eq!(found(info, DetectKind::RecursiveFunctionCall), vec!["(f->g->f)".to_string()]);
    assert_eq!(info.status, Status::Wrong);
}

#[test]
fn self_recursion_is_reported() {
    let f = public("f", vec![MoveBytecode::Call(0), MoveBytecode::Ret]);
    let cms = vec![module("m", vec![f])];
    let suite = scan(&cms);
    assert_eq!(
        found(&suite.result.modules[0].1, DetectKind::RecursiveFunctionCall),
        vec!["(f->f)".to_string()]
    );
}

#[test]
fn acyclic_call_graph_has_no_recursion() {
    let f = public("f", vec![MoveBytecode::Call(1), MoveBytecode::Call(2), MoveBytecode::Ret]);
    let g = public("g", vec![MoveBytecode::Call(2), MoveBytecode::Ret]);
    let h = public("h", vec![MoveBytecode::Ret]);
    let cms = vec![module("m", vec![f, g, h])];
    let suite = scan(&cms);
    assert_eq!(found(&suite.result.modules[0].1, DetectKind::RecursiveFunctionCall), none());
}

fn private(name: &'static str, is_entry: bool) -> Fun {
    Fun {
        name,
        params: vec![],
        returns: vec![],
        locals: vec![],
        code: Some(vec![MoveBytecode::Ret]),
        visibility: Visibility::Private,
        is_entry,
    }
}

#[test]
fn uncalled_private_function_is_reported() {
    let cms = vec![module("m", vec![private("helper", false), public("main", vec![MoveBytecode::Ret])])];
    let suite = scan(&cms);
    let info = &suite.result.modules[0].1;
    assert_eq!(found(info, DetectKind::UnusedPrivateFunctions), vec!["helper".to_string()]);
    assert_eq!(info.status, Status::Wrong);
}

#[test]
fn called_entry_and_init_functions_are_not_unused() {
    let cms = vec![module(
        "m",
        vec![
            private("helper", false),
            private("start", true),
            private("init_all", false),
            private("initial", false),
            public("main", vec![MoveBytecode::Call(0), MoveBytecode::Ret]),
        ],
    )];
    let suite = scan(&cms);
    assert_eq!(found(&suite.result.modules[0].1, DetectKind::UnusedPrivateFunctions), none());
}

#[test]
fn clean_module_passes() {
    let cms = vec![module("m", vec![public("main", vec![MoveBytecode::Ret])])];
    let suite = scan(&cms);
    let result = &suite.result;
    assert_eq!(result.total_time, 7);
    assert_eq!(result.modules.len(), 1);
    let info = &result.modules[0].1;
    assert_eq!(info.status, Status::Pass);
    assert_eq!(info.detectors.len(), 9);
    assert!(info.detectors.iter().all(|list| list.is_empty()));
    assert_eq!(info.function_count.all, 1);
    assert_eq!(info.function_count.native, 0);
    assert_eq!(info.constant_count, 0);
    assert_eq!(result.modules_status.pass, vec![result.modules[0].0.clone()]);
    assert!(result.modules_status.wrong.is_empty());
}

#[test]
fn status_is_pass_exactly_without_findings() {
    let clean = module("clean", vec![public("main", vec![MoveBytecode::Ret])]);
    let dirty = module("dirty", vec![private("helper", false)]);
    let cms = vec![clean, dirty];
    let suite = scan(&cms);
    let result = &suite.result;
    assert_eq!(result.modules.len(), 2);
    for (_, info) in result.modules.iter() {
        let findings: usize = info.detectors.iter().map(|list| list.len()).sum();
        assert_eq!(info.status == Status::Pass, findings == 0);
    }
    assert_eq!(result.modules[0].1.status, Status::Pass);
    assert_eq!(result.modules[1].1.status, Status::Wrong);
    assert_eq!(result.modules_status.pass, vec![result.modules[0].0.clone()]);
    assert_eq!(result.modules_status.wrong, vec![result.modules[1].0.clone()]);
}

#[test]
fn native_function_is_counted_and_skipped() {
    let native = Fun {
        name: "helper",
        params: vec![],
        returns: vec![],
        locals: vec![],
        code: None,
        visibility: Visibility::Public,
        is_entry: false,
    };
    let cms = vec![module("m", vec![native, public("main", vec![MoveBytecode::Ret])])];
    let suite = scan(&cms);
    let info = &suite.result.modules[0].1;
    assert_eq!(info.function_count.all, 2);
    assert_eq!(info.function_count.native, 1);
    assert_eq!(info.status, Status::Pass);
}

#[test]
fn running_the_suite_twice_gives_the_same() {
    let build = || {
        vec![
            module(
                "a",
                vec![
                    private("helper", false),
                    public("f", vec![MoveBytecode::Call(2), MoveBytecode::Ret]),
                    public("g", vec![MoveBytecode::Call(1), MoveBytecode::Ret]),
                ],
            ),
            module("b", vec![public("main", vec![MoveBytecode::Ret])]),
        ]
    };
    let first = build();
    let second = build();
    let one = scan(&first);
    let two = scan(&second);
    assert_eq!(one.result.modules.len(), two.result.modules.len());
    for (x, y) in one.result.modules.iter().zip(two.result.modules.iter()) {
        assert_eq!(x.0, y.0);
        assert_eq!(x.1.status, y.1.status);
        assert_eq!(x.1.detectors, y.1.detectors);
    }
    assert_eq!(one.result.modules_status.pass, two.result.modules_status.pass);
    assert_eq!(one.result.modules_status.wrong, two.result.modules_status.wrong);
}

#[test]
fn module_that_cannot_be_lifted_stops_the_run() {
    let cms = vec![module("m", vec![public("bad", vec![MoveBytecode::Pop, MoveBytecode::Ret])])];
    let mut suite = Detectors::new(args());
    assert!(!suite.try_run(&cms, 7));
    assert!(suite.result.modules.is_empty());
    assert_eq!(suite.result.total_time, 0);
}

fn pair_and_caller() -> CompiledModule {
    let pair = Fun {
        name: "f",
        params: vec![],
        returns: vec![SignatureToken::U8, SignatureToken::U8],
        locals: vec![],
        code: Some(vec![MoveBytecode::LdU8(1), MoveBytecode::LdU8(2), MoveBytecode::Ret]),
        visibility: Visibility::Public,
        is_entry: false,
    };
    let caller = public(
        "caller",
        vec![MoveBytecode::Call(0), MoveBytecode::Pop, MoveBytecode::Pop, MoveBytecode::Ret],
    );
    module("unchecked_return", vec![pair, caller])
}

fn spinning() -> CompiledModule {
    module(
        "infinite_loop",
        vec![counter(
            "spin",
            vec![
                MoveBytecode::LdU64(0),
                MoveBytecode::StLoc(0),
                MoveBytecode::CopyLoc(0),
                MoveBytecode::LdU64(10),
                MoveBytecode::Lt,
                MoveBytecode::BrFalse(11),
                MoveBytecode::CopyLoc(0),
                MoveBytecode::LdU64(0),
                MoveBytecode::Add,
                MoveBytecode::Pop,
                MoveBytecode::Branch(2),
                MoveBytecode::Ret,
            ],
        )],
    )
}

#[test]
fn test_detect_unchecked_return() {
    let cm = pair_and_caller();
    assert!(cm.check_bounds());
    let mut stbgr = StacklessBytecodeGenerator::new(&cm);
    assert!(stbgr.try_generate_function());
    let mut found = Vec::new();
    for (idx, function) in stbgr.functions.iter().enumerate() {
        if let Some(res) = detect_unchecked_return(function, &stbgr.symbol_pool, idx, &stbgr) {
            found.push((idx, res));
        }
    }
    assert_eq!(found, vec![(1, "caller(f)".to_string())]);
}

#[test]
fn test_loop() {
    let cms = vec![spinning()];
    let packages = Packages::try_new(&cms).expect("the module can be lifted");
    let stbgr = &packages.packages[0].1;
    let cfg = stbgr.functions[0].cfg.as_ref().expect("the function has a body");
    assert_eq!(cfg.num_blocks(), 6);
    assert_eq!(cfg.successors(4), &vec![3]);
    assert_eq!(stbgr.data_dependency.len(), 1);
    assert_eq!(detect_infinite_loop(stbgr, 0), Some("spin".to_string()));
    let function = &stbgr.functions[0];
    assert_eq!(detect_unchecked_return(function, &stbgr.symbol_pool, 0, stbgr), None);
}

#[test]
fn test_for_online_bytecodes() {
    let native = Fun {
        name: "helper",
        params: vec![],
        returns: vec![],
        locals: vec![],
        code: None,
        visibility: Visibility::Public,
        is_entry: false,
    };
    let cms = vec![
        pair_and_caller(),
        spinning(),
        module("plain", vec![native, public("main", vec![MoveBytecode::Ret])]),
    ];
    let packages = Packages::try_new(&cms).expect("the modules can be lifted");
    let function_kinds = [
        DetectKind::UncheckedReturn,
        DetectKind::Overflow,
        DetectKind::PrecisionLoss,
        DetectKind::InfiniteLoop,
        DetectKind::UnnecessaryTypeConversion,
        DetectKind::UnnecessaryBoolJudgment,
    ];
    let mut func_cnt = 0;
    let mut native_func_cnt = 0;
    let mut defects_cnt = vec![0; 8];
    for (_, stbgr) in packages.get_all_stbgr().iter() {
        for idx in 0..stbgr.functions.len() {
            func_cnt += 1;
            if stbgr.module.function_defs[idx].is_native() {
                native_func_cnt += 1;
                continue;
            }
            for (place, kind) in function_kinds.iter().enumerate() {
                if find_in_function(*kind, stbgr, idx).is_some() {
                    defects_cnt[place] += 1;
                }
            }
        }
        defects_cnt[6] += find_in_module(DetectKind::UnusedConstant, stbgr).len();
        defects_cnt[7] += find_in_module(DetectKind::UnusedPrivateFunctions, stbgr).len();
    }
    assert_eq!(packages.get_all_stbgr().len(), 3);
    assert_eq!(func_cnt, 5);
    assert_eq!(native_func_cnt, 1);
    assert_eq!(defects_cnt, vec![1, 0, 0, 1, 0, 0, 0, 0]);
}
