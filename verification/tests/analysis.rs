use move_scanner::move_ir::bytecode::{Bytecode, Constant, Operation};
use move_scanner::move_ir::data_dependency::{Node, Val};
use move_scanner::move_ir::file_format::{
    CodeUnit, CompiledModule, FunctionDefinition, FunctionHandle, ModuleConstant, ModuleHandle,
    MoveBytecode, MoveValue, Signature, SignatureToken, Visibility,
};
use move_scanner::move_ir::generate_bytecode::StacklessBytecodeGenerator;
use move_scanner::move_ir::packages::{lift_module, Packages};
use move_scanner::move_ir::u256::U256;
use move_scanner::scanner::detectors::AbstractDetector;
use move_scanner::scanner::detects::common::run_detector;
use move_scanner::scanner::detects::detect10::{
    find_repeated_in_function, find_repeated_in_module, Detector10,
};
use move_scanner::scanner::detects::detect2::Detector2;
use move_scanner::scanner::detects::detect9::Detector9;
use move_scanner::scanner::result::{DetectKind, Severity};
use petgraph::graph::NodeIndex;

struct Fun {
    name: &'static str,
    params: Vec<SignatureToken>,
    returns: Vec<SignatureToken>,
    locals: Vec<SignatureToken>,
    code: Option<Vec<MoveBytecode>>,
}

fn plain(name: &'static str, code: Vec<MoveBytecode>) -> Fun {
    Fun { name, params: vec![], returns: vec![], locals: vec![], code: Some(code) }
}

fn module(address: u128, name: &str, funs: Vec<Fun>, constants: Vec<ModuleConstant>) -> CompiledModule {
    let mut identifiers = vec![name.to_string()];
    let mut signatures = Vec::new();
    let mut function_handles = Vec::new();
    let mut function_defs = Vec::new();
    for (i, f) in funs.into_iter().enumerate() {
        let i = i as u16;
        identifiers.push(f.name.to_string());
        signatures.push(Signature(f.params));
        signatures.push(Signature(f.returns));
        signatures.push(Signature(f.locals));
        function_handles.push(FunctionHandle {
            module: 0,
            name: 1 + i,
            parameters: 3 * i,
            return_: 3 * i + 1,
            type_parameters: 0,
        });
        function_defs.push(FunctionDefinition {
            function: i,
            visibility: Visibility::Public,
            is_entry: false,
            code: f.code.map(|code| CodeUnit { locals: 3 * i + 2, code }),
        });
    }
    CompiledModule {
        self_module_handle_idx: 0,
        module_handles: vec![ModuleHandle { address: 0, name: 0 }],
        struct_handles: vec![],
        function_handles,
        field_handles: vec![],
        struct_def_instantiations: vec![],
        function_instantiations: vec![],
        field_instantiations: vec![],
        signatures,
        identifiers,
        address_identifiers: vec![U256::new(address)],
        constant_pool: constants,
        struct_defs: vec![],
        function_defs,
    }
}

fn texts(v: &[&str]) -> Vec<String> {
    v.iter().map(|s| s.to_string()).collect()
}

fn node(g: &StacklessBytecodeGenerator, f: usize, t: usize) -> &'static str {
    match &g.data_dependency[f].data[t] {
        Some(n) => match n.value {
            Val::ByteCode(_) => "code",
            Val::Const(_) => "const",
            Val::ParamType(_) => "param",
            Val::AssignedFrom(_) => "assigned",
        },
        None => "none",
    }
}

fn tree<'a>(g: &'a StacklessBytecodeGenerator<'a>, f: usize, t: usize) -> &'a Node {
    g.data_dependency[f].data[t].as_ref().expect("the temp has a tree")
}

#[test]
fn module_is_known_by_address_and_name() {
    let cms = vec![
        module(1, "coin", vec![plain("mint", vec![MoveBytecode::Ret])], vec![]),
        module(0xab12, "bank", vec![plain("open", vec![MoveBytecode::Ret])], vec![]),
        module(0, "zero", vec![], vec![]),
    ];
    let p = Packages::try_new(&cms).expect("the modules can be lifted");
    let names: Vec<&str> = p.get_all_stbgr().iter().map(|e| e.0.as_str()).collect();
    assert_eq!(names, vec!["0x1::coin", "0xab12::bank", "0x0::zero"]);
    assert_eq!(p.packages[1].1.display_name(), "0xab12::bank");
    assert_eq!(p.find_module(&"0xab12::bank".to_string()), Some(1));
    assert_eq!(p.find_module(&"0xAB12::bank".to_string()), None);
    assert!(p.get_stbgr_by_mname("0x1::coin".to_string()).is_some());
    assert!(p.get_stbgr_by_mname("coin".to_string()).is_none());
    let f = p.get_function(&"0x1::coin".to_string(), &"mint".to_string());
    assert_eq!(f.map(|f| f.name.as_str()), Some("mint"));
    assert!(p.get_function(&"0x1::coin".to_string(), &"open".to_string()).is_none());
    assert!(p.get_function(&"0x2::coin".to_string(), &"mint".to_string()).is_none());
}

#[test]
fn later_module_of_a_name_takes_the_place_of_the_earlier() {
    let cms = vec![
        module(1, "coin", vec![plain("old", vec![MoveBytecode::Ret])], vec![]),
        module(2, "bank", vec![], vec![]),
        module(1, "coin", vec![plain("new", vec![MoveBytecode::Ret])], vec![]),
    ];
    let p = Packages::try_new(&cms).expect("the modules can be lifted");
    let names: Vec<&str> = p.get_all_stbgr().iter().map(|e| e.0.as_str()).collect();
    assert_eq!(names, vec!["0x1::coin", "0x2::bank"]);
    assert_eq!(p.packages[0].1.functions[0].name, "new");
}

#[test]
fn module_that_cannot_be_lifted_gives_no_package() {
    let cms = vec![module(1, "m", vec![plain("bad", vec![MoveBytecode::Add, MoveBytecode::Ret])], vec![])];
    assert!(Packages::try_new(&cms).is_none());
    assert!(Packages::try_lift(&cms).is_none());
    assert!(lift_module(&cms[0]).is_none());
    let broken = vec![module(1, "m", vec![plain("bad", vec![MoveBytecode::CopyLoc(2)])], vec![])];
    assert!(Packages::try_new(&broken).is_none());
}

#[test]
fn call_graph_has_a_node_for_each_handle_and_an_edge_for_each_callee() {
    let cm = module(
        1,
        "m",
        vec![
            plain("f", vec![MoveBytecode::Call(1), MoveBytecode::Call(2), MoveBytecode::Call(1), MoveBytecode::Ret]),
            plain("g", vec![MoveBytecode::Call(2), MoveBytecode::Ret]),
            plain("h", vec![MoveBytecode::Ret]),
        ],
        vec![],
    );
    let (name, g) = lift_module(&cm).expect("the module can be lifted");
    assert_eq!(name, "0x1::m");
    let graph = &g.call_graph;
    assert_eq!(graph.node_count(), 3);
    assert_eq!(graph.edge_count(), 3);
    let at = |i: usize| NodeIndex::<u32>::new(i);
    assert!(graph.contains_edge(at(0), at(1)));
    assert!(graph.contains_edge(at(0), at(2)));
    assert!(graph.contains_edge(at(1), at(2)));
    assert!(!graph.contains_edge(at(2), at(0)));
    assert!(!graph.contains_edge(at(1), at(0)));
    for h in 0..3 {
        let weight = graph.node_weight(at(h)).expect("the node is there");
        assert_eq!(weight.0, 0);
        assert_eq!(g.symbol_pool.string(move_scanner::move_ir::types::Symbol(weight.1)), ["f", "g", "h"][h]);
        assert_eq!(g.func_to_node[h].1, h);
    }
    for f in g.functions.iter() {
        assert!(f.cfg.is_some());
    }
}

#[test]
fn native_function_has_no_code_and_no_graph() {
    let native = Fun { name: "n", params: vec![], returns: vec![], locals: vec![], code: None };
    let cm = module(1, "m", vec![native, plain("f", vec![MoveBytecode::Ret])], vec![]);
    let (_, g) = lift_module(&cm).expect("the module can be lifted");
    assert!(g.functions[0].code.is_empty());
    assert!(g.functions[0].cfg.is_none());
    assert!(g.functions[1].cfg.is_some());
    assert!(move_scanner::move_ir::utils::is_native(0, &g));
    assert!(!move_scanner::move_ir::utils::is_native(1, &g));
    assert_eq!(move_scanner::move_ir::utils::get_function_name(0, &g), "n");
    assert_eq!(move_scanner::move_ir::utils::get_function_name(1, &g), "f");
}

#[test]
fn bounds_follow_the_operations() {
    let f = Fun {
        name: "f",
        params: vec![SignatureToken::U8, SignatureToken::U64],
        returns: vec![],
        locals: vec![],
        code: Some(vec![
            MoveBytecode::LdU8(255),
            MoveBytecode::LdU8(1),
            MoveBytecode::Shl,
            MoveBytecode::CopyLoc(0),
            MoveBytecode::Add,
            MoveBytecode::CastU64,
            MoveBytecode::CopyLoc(1),
            MoveBytecode::Lt,
            MoveBytecode::Pop,
            MoveBytecode::Ret,
        ]),
    };
    let cms = vec![module(1, "m", vec![f], vec![])];
    let p = Packages::try_new(&cms).expect("the module can be lifted");
    let g = &p.packages[0].1;
    let n = |x: u128| Some(U256::new(x));
    assert_eq!(node(g, 0, 0), "param");
    assert_eq!(tree(g, 0, 0).max, n(255));
    assert!(!tree(g, 0, 0).is_constant);
    assert_eq!(tree(g, 0, 1).max, n(u64::MAX as u128));
    assert_eq!(node(g, 0, 2), "const");
    assert_eq!(tree(g, 0, 2).max, n(255));
    assert!(tree(g, 0, 2).is_constant);
    assert_eq!(tree(g, 0, 3).max, n(1));
    assert_eq!(node(g, 0, 4), "code");
    assert_eq!(tree(g, 0, 4).max, n(255));
    assert!(!tree(g, 0, 4).is_constant);
    assert_eq!(tree(g, 0, 4).subnodes.len(), 2);
    assert_eq!(node(g, 0, 5), "assigned");
    assert_eq!(tree(g, 0, 5).max, n(255));
    assert!(!tree(g, 0, 5).is_constant);
    assert_eq!(tree(g, 0, 6).max, n(255));
    assert_eq!(tree(g, 0, 7).max, n(255));
    assert_eq!(tree(g, 0, 8).max, n(u64::MAX as u128));
    assert_eq!(node(g, 0, 9), "code");
    assert_eq!(tree(g, 0, 9).max, None);
    assert!(!tree(g, 0, 9).is_constant);
    let types = &g.functions[0].local_types;
    for (t, entry) in g.data_dependency[0].data.iter().enumerate() {
        if let Some(tree) = entry {
            let top = move_scanner::move_ir::data_dependency::get_uint_max(&types[t]);
            if let (Some(max), Some(top)) = (tree.max, top) {
                assert!(max.le(&top));
            }
            if tree.is_constant {
                assert!(tree.max.is_some());
                assert!(matches!(tree.value, Val::Const(_) | Val::ByteCode(_)));
            }
        }
    }
}

#[test]
fn constants_combine_to_constants() {
    let f = plain(
        "f",
        vec![
            MoveBytecode::LdU8(10),
            MoveBytecode::LdU8(3),
            MoveBytecode::Sub,
            MoveBytecode::LdU8(4),
            MoveBytecode::Mul,
            MoveBytecode::CastU16,
            MoveBytecode::Pop,
            MoveBytecode::Ret,
        ],
    );
    let cms = vec![module(1, "m", vec![f], vec![])];
    let p = Packages::try_new(&cms).expect("the module can be lifted");
    let g = &p.packages[0].1;
    let n = |x: u128| Some(U256::new(x));
    assert_eq!(tree(g, 0, 2).max, n(7));
    assert!(tree(g, 0, 2).is_constant);
    assert_eq!(tree(g, 0, 4).max, n(28));
    assert!(tree(g, 0, 4).is_constant);
    assert_eq!(tree(g, 0, 5).max, n(28));
    assert!(tree(g, 0, 5).is_constant);
    assert!(tree(g, 0, 5).is_const());
}

#[test]
fn call_results_are_bounded_by_their_type() {
    let callee = Fun {
        name: "g",
        params: vec![SignatureToken::U8],
        returns: vec![SignatureToken::U16],
        locals: vec![],
        code: Some(vec![MoveBytecode::CopyLoc(0), MoveBytecode::CastU16, MoveBytecode::Ret]),
    };
    let caller = plain(
        "f",
        vec![MoveBytecode::LdU8(3), MoveBytecode::Call(0), MoveBytecode::Pop, MoveBytecode::Ret],
    );
    let cms = vec![module(1, "m", vec![callee, caller], vec![])];
    let p = Packages::try_new(&cms).expect("the module can be lifted");
    let g = &p.packages[0].1;
    let result = tree(g, 1, 1);
    assert_eq!(result.max, Some(U256::new(65535)));
    assert!(!result.is_constant);
    assert!(matches!(
        &result.value,
        Val::ByteCode(Bytecode::Call(_, dsts, Operation::Function(_, _, _), srcs, None))
            if *dsts == vec![1] && *srcs == vec![0]
    ));
    assert_eq!(result.subnodes.len(), 1);
    assert_eq!(result.subnodes[0].max, Some(U256::new(255)));
}

#[test]
fn reading_a_local_before_it_is_written_stops_the_analysis() {
    let f = Fun {
        name: "f",
        params: vec![],
        returns: vec![],
        locals: vec![SignatureToken::U8],
        code: Some(vec![MoveBytecode::CopyLoc(0), MoveBytecode::Pop, MoveBytecode::Ret]),
    };
    let cms = vec![module(1, "m", vec![f], vec![])];
    assert!(Packages::try_lift(&cms).is_some());
    assert!(Packages::try_new(&cms).is_none());
}

#[test]
fn constant_that_no_code_loads_is_unused() {
    let constants = vec![
        ModuleConstant { type_: SignatureToken::U8, value: MoveValue::U8(7) },
        ModuleConstant { type_: SignatureToken::U64, value: MoveValue::U64(9) },
        ModuleConstant {
            type_: SignatureToken::Vector(Box::new(SignatureToken::U8)),
            value: MoveValue::Vector(vec![MoveValue::U8(1), MoveValue::U8(2)]),
        },
        ModuleConstant { type_: SignatureToken::Address, value: MoveValue::Address(U256::new(0x1f)) },
    ];
    let f = plain("f", vec![MoveBytecode::LdConst(0), MoveBytecode::Pop, MoveBytecode::Ret]);
    let cms = vec![module(1, "m", vec![f], constants)];
    let p = Packages::try_new(&cms).expect("the module can be lifted");
    let found = run_detector(DetectKind::UnusedConstant, &p);
    assert_eq!(
        found,
        vec![(
            "0x1::m".to_string(),
            texts(&[
                "U64(9)",
                "Vector([U8(1), U8(2)])",
                "Address(000000000000000000000000000000000000000000000000000000000000001F)",
            ])
        )]
    );
    let g = &p.packages[0].1;
    assert_eq!(g.functions[0].code[0], Bytecode::Load(move_scanner::move_ir::bytecode::AttrId(0), 0, Constant::U8(7)));
}

#[test]
fn constant_that_does_not_fit_its_type_cannot_be_loaded() {
    let constants = vec![ModuleConstant { type_: SignatureToken::U8, value: MoveValue::U64(7) }];
    let f = plain("f", vec![MoveBytecode::LdConst(0), MoveBytecode::Pop, MoveBytecode::Ret]);
    let cms = vec![module(1, "m", vec![f], constants)];
    assert!(Packages::try_lift(&cms).is_none());
}

#[test]
fn cast_to_the_type_of_the_operand_is_needless() {
    let same = Fun {
        name: "same",
        params: vec![SignatureToken::U8],
        returns: vec![],
        locals: vec![],
        code: Some(vec![MoveBytecode::CopyLoc(0), MoveBytecode::CastU8, MoveBytecode::Pop, MoveBytecode::Ret]),
    };
    let wider = Fun {
        name: "wider",
        params: vec![SignatureToken::U8],
        returns: vec![],
        locals: vec![],
        code: Some(vec![MoveBytecode::CopyLoc(0), MoveBytecode::CastU16, MoveBytecode::Pop, MoveBytecode::Ret]),
    };
    let cms = vec![module(1, "m", vec![same, wider], vec![])];
    let p = Packages::try_new(&cms).expect("the module can be lifted");
    let found = run_detector(DetectKind::UnnecessaryTypeConversion, &p);
    assert_eq!(found, vec![("0x1::m".to_string(), texts(&["same"]))]);
}

#[test]
fn comparison_with_a_bool_constant_is_needless() {
    let judged = Fun {
        name: "judged",
        params: vec![SignatureToken::Bool],
        returns: vec![],
        locals: vec![],
        code: Some(vec![
            MoveBytecode::CopyLoc(0),
            MoveBytecode::LdTrue,
            MoveBytecode::Eq,
            MoveBytecode::Pop,
            MoveBytecode::Ret,
        ]),
    };
    let numbers = plain(
        "numbers",
        vec![
            MoveBytecode::LdU8(1),
            MoveBytecode::LdU8(2),
            MoveBytecode::Neq,
            MoveBytecode::Pop,
            MoveBytecode::Ret,
        ],
    );
    let cms = vec![module(1, "m", vec![judged, numbers], vec![])];
    let p = Packages::try_new(&cms).expect("the module can be lifted");
    let found = run_detector(DetectKind::UnnecessaryBoolJudgment, &p);
    assert_eq!(found, vec![("0x1::m".to_string(), texts(&["judged"]))]);
}

fn twice(first: MoveBytecode, second: MoveBytecode) -> Vec<CompiledModule> {
    let callee = Fun {
        name: "g",
        params: vec![SignatureToken::U64],
        returns: vec![],
        locals: vec![],
        code: Some(vec![MoveBytecode::Ret]),
    };
    let caller = Fun {
        name: "f",
        params: vec![SignatureToken::U64, SignatureToken::U64],
        returns: vec![],
        locals: vec![],
        code: Some(vec![first, MoveBytecode::Call(0), second, MoveBytecode::Call(0), MoveBytecode::Ret]),
    };
    vec![module(1, "m", vec![callee, caller], vec![])]
}

#[test]
fn same_call_on_the_same_argument_is_repeated() {
    let cms = twice(MoveBytecode::CopyLoc(0), MoveBytecode::CopyLoc(0));
    let p = Packages::try_new(&cms).expect("the module can be lifted");
    let g = &p.packages[0].1;
    assert_eq!(find_repeated_in_function(g, 0), None);
    assert_eq!(find_repeated_in_function(g, 1), Some("f(g)".to_string()));
    assert_eq!(find_repeated_in_module(g), texts(&["f(g)"]));
    let mut detector = Detector10::new(&p);
    assert!(detector.result.is_empty());
    let found = detector.run();
    assert_eq!(found, &vec![("0x1::m".to_string(), texts(&["f(g)"]))]);
    let mut suite = move_scanner::scanner::detectors::Detectors::new(move_scanner::cli::parser::Args {
        path: String::new(),
        output: None,
        none: false,
        json: false,
        ir_type: None,
    });
    assert!(suite.try_run(&cms, 0));
    assert!(suite.result.modules[0].1.detectors.iter().all(|list| list.is_empty()));
}

#[test]
fn same_call_on_another_argument_is_not_repeated() {
    let cms = twice(MoveBytecode::CopyLoc(0), MoveBytecode::CopyLoc(1));
    let p = Packages::try_new(&cms).expect("the module can be lifted");
    let mut detector = Detector10::new(&p);
    assert_eq!(detector.run(), &vec![("0x1::m".to_string(), texts(&[]))]);
}

#[test]
fn detectors_report_under_their_kind() {
    let cms = vec![module(
        1,
        "m",
        vec![
            plain(
                "shifty",
                vec![
                    MoveBytecode::LdU8(255),
                    MoveBytecode::LdU8(1),
                    MoveBytecode::Shl,
                    MoveBytecode::Pop,
                    MoveBytecode::Call(0),
                    MoveBytecode::Ret,
                ],
            ),
        ],
        vec![],
    )];
    let p = Packages::try_new(&cms).expect("the module can be lifted");
    let mut overflow = Detector2::new(&p);
    let content = overflow.run();
    assert_eq!(content.kind, DetectKind::Overflow);
    assert_eq!(content.severity, Severity::Minor);
    assert_eq!(content.result, vec![("0x1::m".to_string(), texts(&["shifty"]))]);
    let mut recursion = Detector9::new(&p);
    let content = recursion.run();
    assert_eq!(content.kind, DetectKind::RecursiveFunctionCall);
    assert_eq!(content.severity, Severity::Major);
    assert_eq!(content.result, vec![("0x1::m".to_string(), texts(&["(shifty->shifty)"]))]);
}

#[test]
fn unused_private_functions_come_in_the_order_of_their_names_in_the_pool() {
    let private = |function: u16| FunctionDefinition {
        function,
        visibility: Visibility::Private,
        is_entry: false,
        code: Some(CodeUnit { locals: 0, code: vec![MoveBytecode::Ret] }),
    };
    let handle = |name: u16| FunctionHandle {
        module: 0,
        name,
        parameters: 0,
        return_: 0,
        type_parameters: 0,
    };
    let cm = CompiledModule {
        self_module_handle_idx: 0,
        module_handles: vec![ModuleHandle { address: 0, name: 0 }],
        struct_handles: vec![],
        function_handles: vec![handle(2), handle(1), handle(3)],
        field_handles: vec![],
        struct_def_instantiations: vec![],
        function_instantiations: vec![],
        field_instantiations: vec![],
        signatures: vec![Signature(vec![])],
        identifiers: vec![
            "m".to_string(),
            "zeta".to_string(),
            "alpha".to_string(),
            "init_all".to_string(),
        ],
        address_identifiers: vec![U256::new(1)],
        constant_pool: vec![],
        struct_defs: vec![],
        function_defs: vec![private(0), private(1), private(2)],
    };
    let cms = vec![cm];
    let p = Packages::try_new(&cms).expect("the module can be lifted");
    let found = run_detector(DetectKind::UnusedPrivateFunctions, &p);
    assert_eq!(found, vec![("0x1::m".to_string(), texts(&["zeta", "alpha"]))]);
}

fn with_imported_namesake(caller_code: Vec<MoveBytecode>) -> CompiledModule {
    let handle = |module: u16, name: u16| FunctionHandle {
        module,
        name,
        parameters: 0,
        return_: 0,
        type_parameters: 0,
    };
    let define = |function: u16, visibility: Visibility, code: Vec<MoveBytecode>| FunctionDefinition {
        function,
        visibility,
        is_entry: false,
        code: Some(CodeUnit { locals: 0, code }),
    };
    CompiledModule {
        self_module_handle_idx: 0,
        module_handles: vec![
            ModuleHandle { address: 0, name: 0 },
            ModuleHandle { address: 0, name: 3 },
        ],
        struct_handles: vec![],
        function_handles: vec![handle(0, 1), handle(0, 2), handle(1, 1)],
        field_handles: vec![],
        struct_def_instantiations: vec![],
        function_instantiations: vec![],
        field_instantiations: vec![],
        signatures: vec![Signature(vec![])],
        identifiers: vec![
            "m".to_string(),
            "helper".to_string(),
            "caller".to_string(),
            "other".to_string(),
        ],
        address_identifiers: vec![U256::new(1)],
        constant_pool: vec![],
        struct_defs: vec![],
        function_defs: vec![
            define(0, Visibility::Private, vec![MoveBytecode::Ret]),
            define(1, Visibility::Public, caller_code),
        ],
    }
}

#[test]
fn called_private_function_is_not_unused_though_an_import_shares_its_name() {
    let cms = vec![with_imported_namesake(vec![MoveBytecode::Call(0), MoveBytecode::Ret])];
    let p = Packages::try_new(&cms).expect("the module can be lifted");
    let found = run_detector(DetectKind::UnusedPrivateFunctions, &p);
    assert_eq!(found, vec![("0x1::m".to_string(), texts(&[]))]);
}

#[test]
fn imported_function_that_nothing_calls_is_not_reported() {
    let cms = vec![with_imported_namesake(vec![MoveBytecode::Ret])];
    let p = Packages::try_new(&cms).expect("the module can be lifted");
    let found = run_detector(DetectKind::UnusedPrivateFunctions, &p);
    assert_eq!(found, vec![("0x1::m".to_string(), texts(&["helper"]))]);
}

fn with_two_handles_of_helper(caller_code: Vec<MoveBytecode>) -> CompiledModule {
    let mut cm = with_imported_namesake(caller_code);
    cm.function_handles[2].module = 0;
    cm
}

#[test]
fn unused_private_function_is_reported_once_though_two_handles_name_it() {
    let cms = vec![with_two_handles_of_helper(vec![MoveBytecode::Ret])];
    let p = Packages::try_new(&cms).expect("the module can be lifted");
    let found = run_detector(DetectKind::UnusedPrivateFunctions, &p);
    assert_eq!(found, vec![("0x1::m".to_string(), texts(&["helper"]))]);
}

#[test]
fn private_function_called_under_its_first_handle_is_not_unused() {
    let cms = vec![with_two_handles_of_helper(vec![MoveBytecode::Call(0), MoveBytecode::Ret])];
    let p = Packages::try_new(&cms).expect("the module can be lifted");
    let found = run_detector(DetectKind::UnusedPrivateFunctions, &p);
    assert_eq!(found, vec![("0x1::m".to_string(), texts(&[]))]);
}

#[test]
fn function_that_calls_itself_is_recursive_though_two_handles_name_it() {
    let mut cm = with_two_handles_of_helper(vec![MoveBytecode::Ret]);
    cm.function_defs[0].code = Some(CodeUnit {
        locals: 0,
        code: vec![MoveBytecode::Call(0), MoveBytecode::Ret],
    });
    let cms = vec![cm];
    let p = Packages::try_new(&cms).expect("the module can be lifted");
    let found = run_detector(DetectKind::RecursiveFunctionCall, &p);
    assert_eq!(found, vec![("0x1::m".to_string(), texts(&["(helper->helper)"]))]);
}

#[test]
fn recursion_is_searched_from_the_functions_in_the_order_of_their_names_in_the_pool() {
    let handle = |name: u16| FunctionHandle {
        module: 0,
        name,
        parameters: 0,
        return_: 0,
        type_parameters: 0,
    };
    let define = |function: u16, callee: u16| FunctionDefinition {
        function,
        visibility: Visibility::Public,
        is_entry: false,
        code: Some(CodeUnit { locals: 0, code: vec![MoveBytecode::Call(callee), MoveBytecode::Ret] }),
    };
    let cm = CompiledModule {
        self_module_handle_idx: 0,
        module_handles: vec![ModuleHandle { address: 0, name: 0 }],
        struct_handles: vec![],
        function_handles: vec![handle(2), handle(1)],
        field_handles: vec![],
        struct_def_instantiations: vec![],
        function_instantiations: vec![],
        field_instantiations: vec![],
        signatures: vec![Signature(vec![])],
        identifiers: vec!["m".to_string(), "zeta".to_string(), "alpha".to_string()],
        address_identifiers: vec![U256::new(1)],
        constant_pool: vec![],
        struct_defs: vec![],
        function_defs: vec![define(0, 1), define(1, 0)],
    };
    let cms = vec![cm];
    let p = Packages::try_new(&cms).expect("the module can be lifted");
    let found = run_detector(DetectKind::RecursiveFunctionCall, &p);
    assert_eq!(found, vec![("0x1::m".to_string(), texts(&["(zeta->alpha->zeta)"]))]);
}
