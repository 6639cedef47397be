use move_scanner::move_ir::bytecode::{AttrId, BorrowNode, Bytecode, Operation};
use move_scanner::move_ir::control_flow_graph::BlockContent;
use move_scanner::move_ir::fatloop::{
    collect_loop_back_edges, collect_loop_invariants, collect_loop_targets, get_loops, modifies,
    offsets_in_loops,
};
use move_scanner::move_ir::file_format::{
    CodeUnit, CompiledModule, FunctionDefinition, FunctionHandle, ModuleHandle, MoveBytecode,
    Signature, SignatureToken, Visibility,
};
use move_scanner::move_ir::packages::lift_module;
use move_scanner::move_ir::u256::U256;
use move_scanner::move_ir::utils::get_def_bytecode;
use move_scanner::utils::graph::NaturalLoop;

fn module_with(code: Vec<MoveBytecode>, locals: Vec<SignatureToken>) -> CompiledModule {
    CompiledModule {
        self_module_handle_idx: 0,
        module_handles: vec![ModuleHandle { address: 0, name: 0 }],
        struct_handles: vec![],
        function_handles: vec![FunctionHandle {
            module: 0,
            name: 1,
            parameters: 0,
            return_: 0,
            type_parameters: 0,
        }],
        field_handles: vec![],
        struct_def_instantiations: vec![],
        function_instantiations: vec![],
        field_instantiations: vec![],
        signatures: vec![Signature(vec![]), Signature(locals)],
        identifiers: vec!["m".to_string(), "f".to_string()],
        address_identifiers: vec![U256::new(1)],
        constant_pool: vec![],
        struct_defs: vec![],
        function_defs: vec![FunctionDefinition {
            function: 0,
            visibility: Visibility::Private,
            is_entry: false,
            code: Some(CodeUnit { locals: 1, code }),
        }],
    }
}

fn counting() -> CompiledModule {
    module_with(
        vec![
            MoveBytecode::LdU64(0),
            MoveBytecode::StLoc(0),
            MoveBytecode::CopyLoc(0),
            MoveBytecode::LdU64(10),
            MoveBytecode::Lt,
            MoveBytecode::BrFalse(11),
            MoveBytecode::CopyLoc(0),
            MoveBytecode::LdU64(1),
            MoveBytecode::Add,
            MoveBytecode::StLoc(0),
            MoveBytecode::Branch(2),
            MoveBytecode::Ret,
        ],
        vec![SignatureToken::U64, SignatureToken::MutableReference(Box::new(SignatureToken::U64))],
    )
}

#[test]
fn counting_loop_is_one_fat_loop() {
    let cm = counting();
    let (_, g) = lift_module(&cm).expect("the module can be lifted");
    let function = &g.functions[0];
    let cfg = function.cfg.as_ref().expect("the function has a body");
    assert_eq!(function.code.len(), 16);
    assert_eq!(cfg.num_blocks(), 6);
    assert_eq!(*cfg.content(2), BlockContent::Basic { lower: 0, upper: 2 });
    assert_eq!(*cfg.content(3), BlockContent::Basic { lower: 3, upper: 7 });
    assert_eq!(*cfg.content(4), BlockContent::Basic { lower: 8, upper: 13 });
    assert_eq!(*cfg.content(5), BlockContent::Basic { lower: 14, upper: 15 });
    assert_eq!(cfg.successors(2), &vec![3]);
    assert_eq!(cfg.successors(3), &vec![4, 5]);
    assert_eq!(cfg.successors(4), &vec![3]);
    assert_eq!(cfg.successors(5), &vec![1]);
    let (loops, annotation) = get_loops(function).expect("the graph is reducible");
    let expected = NaturalLoop { loop_header: 3, loop_latch: 4, loop_body: vec![3, 4] };
    assert_eq!(loops, vec![NaturalLoop { loop_header: 3, loop_latch: 4, loop_body: vec![3, 4] }]);
    assert_eq!(annotation.fat_loops.len(), 1);
    let (header, fat) = &annotation.fat_loops[0];
    assert_eq!(*header, 3);
    assert!(fat.invariants.is_empty());
    assert_eq!(fat.val_targets, vec![0, 3, 4, 5, 6, 7, 8]);
    assert!(fat.mut_targets.is_empty());
    assert_eq!(fat.back_edges, vec![13]);
    assert_eq!(fat.sub_loops, vec![expected]);
    let inside = offsets_in_loops(cfg, function.code.len(), &loops);
    let expected_inside: Vec<bool> = (0..16).map(|k| (3..=13).contains(&k)).collect();
    assert_eq!(inside, expected_inside);
    assert_eq!(collect_loop_back_edges(function.code.len(), cfg, &loops), vec![13]);
    assert_eq!(collect_loop_targets(cfg, function, &loops), (vec![0, 3, 4, 5, 6, 7, 8], vec![]));
    assert_eq!(collect_loop_invariants(cfg, function, 3), Some(vec![]));
    assert_eq!(collect_loop_invariants(cfg, function, 2), None);
    assert_eq!(collect_loop_invariants(cfg, function, 0), None);
}

#[test]
fn function_without_a_graph_has_no_loops() {
    let cm = counting();
    let (_, mut g) = lift_module(&cm).expect("the module can be lifted");
    g.functions[0].cfg = None;
    assert!(get_loops(&g.functions[0]).is_none());
}

#[test]
fn straight_code_has_no_loop() {
    let cm = module_with(vec![MoveBytecode::Ret], vec![]);
    let (_, g) = lift_module(&cm).expect("the module can be lifted");
    let (loops, annotation) = get_loops(&g.functions[0]).expect("the graph is reducible");
    assert!(loops.is_empty());
    assert!(annotation.fat_loops.is_empty());
}

#[test]
fn instruction_changes_values_and_references() {
    let cm = counting();
    let (_, g) = lift_module(&cm).expect("the module can be lifted");
    let function = &g.functions[0];
    let a = AttrId(0);
    let store = move_scanner::move_ir::bytecode::AssignKind::Store;
    assert_eq!(modifies(&Bytecode::Assign(a, 0, 2, store), function), (vec![0], vec![]));
    assert_eq!(modifies(&Bytecode::Assign(a, 1, 2, store), function), (vec![], vec![(1, true)]));
    assert_eq!(
        modifies(&Bytecode::Load(a, 0, move_scanner::move_ir::bytecode::Constant::U8(1)), function),
        (vec![0], vec![])
    );
    assert_eq!(
        modifies(&Bytecode::Call(a, vec![0, 1], Operation::Add, vec![2], None), function),
        (vec![0], vec![(1, true)])
    );
    assert_eq!(
        modifies(&Bytecode::Call(a, vec![], Operation::WriteRef, vec![1, 0], None), function),
        (vec![], vec![(1, false)])
    );
    assert_eq!(
        modifies(
            &Bytecode::Call(a, vec![], Operation::WriteBack(BorrowNode::LocalRoot(0)), vec![1], None),
            function
        ),
        (vec![0], vec![])
    );
    assert_eq!(
        modifies(
            &Bytecode::Call(a, vec![], Operation::WriteBack(BorrowNode::Reference(1)), vec![0], None),
            function
        ),
        (vec![], vec![(1, false)])
    );
    assert_eq!(modifies(&Bytecode::Ret(a, vec![0]), function), (vec![], vec![]));
    assert_eq!(modifies(&Bytecode::Nop(a), function), (vec![], vec![]));
}

#[test]
fn nearest_definition_before_an_offset_is_found() {
    let cm = counting();
    let (_, g) = lift_module(&cm).expect("the module can be lifted");
    let function = &g.functions[0];
    assert_eq!(function.def_attrid[0], vec![1, 12]);
    assert_eq!(get_def_bytecode(function, 0, 4), Some(&function.code[1]));
    assert_eq!(get_def_bytecode(function, 0, 13), Some(&function.code[12]));
    assert_eq!(get_def_bytecode(function, 0, 1), Some(&function.code[1]));
    assert_eq!(get_def_bytecode(function, 3, 6), Some(&function.code[4]));
    assert_eq!(get_def_bytecode(function, 1, 6), None);
    assert_eq!(get_def_bytecode(function, 99, 6), None);
}
