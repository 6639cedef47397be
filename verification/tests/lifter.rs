use move_scanner::move_ir::bytecode::{AssignKind, AttrId, Bytecode, Constant, Label, Operation};
use move_scanner::move_ir::file_format::{
    CodeUnit, CompiledModule, FunctionDefinition, FunctionHandle, ModuleHandle, MoveBytecode,
    Signature, SignatureToken, Visibility,
};
use move_scanner::move_ir::generate_bytecode::StacklessBytecodeGenerator;
use move_scanner::move_ir::types::{PrimitiveType, Type};
use move_scanner::move_ir::u256::U256;

fn module_with(code: Vec<MoveBytecode>, locals: Vec<SignatureToken>) -> CompiledModule {
    CompiledModule {
        self_module_handle_idx: 0,
        module_handles: vec![ModuleHandle { address: 0, name: 0 }],
        struct_handles: vec![],
        function_handles: vec![FunctionHandle { module: 0, name: 1, parameters: 0, return_: 0, type_parameters: 0 }],
        field_handles: vec![],
        struct_def_instantiations: vec![],
        function_instantiations: vec![],
        field_instantiations: vec![],
        signatures: vec![Signature(vec![]), Signature(locals)],
        identifiers: vec!["m".to_string(), "f".to_string()],
        address_identifiers: vec![U256::new(1)],
        constant_pool: vec![],
        struct_defs: vec![],
        function_defs: vec![FunctionDefinition {
            function: 0,
            visibility: Visibility::Private,
            is_entry: false,
            code: Some(CodeUnit { locals: 1, code }),
        }],
    }
}

#[test]
fn lifts_a_shift() {
    let cm = module_with(
        vec![
            MoveBytecode::LdU8(255),
            MoveBytecode::LdU8(1),
            MoveBytecode::Shl,
            MoveBytecode::Pop,
            MoveBytecode::Ret,
        ],
        vec![],
    );
    assert!(cm.check_bounds());
    let mut g = StacklessBytecodeGenerator::new(&cm);
    assert!(g.try_generate_function());
    assert_eq!(g.functions.len(), 1);
    let f = &g.functions[0];
    assert_eq!(f.name, "f");
    assert_eq!(f.code.len(), 5);
    assert_eq!(f.local_types.len(), 3);
    assert!(matches!(f.code[0], Bytecode::Load(_, 0, Constant::U8(255))));
    assert!(matches!(f.code[1], Bytecode::Load(_, 1, Constant::U8(1))));
    match &f.code[2] {
        Bytecode::Call(_, dsts, Operation::Shl, srcs, None) => {
            assert_eq!(dsts, &vec![2]);
            assert_eq!(srcs, &vec![0, 1]);
        }
        _ => panic!("expected a shift"),
    }
    match &f.code[3] {
        Bytecode::Call(_, dsts, Operation::Destroy, srcs, None) => {
            assert!(dsts.is_empty());
            assert_eq!(srcs, &vec![2]);
        }
        _ => panic!("expected a destroy"),
    }
    assert!(matches!(&f.code[4], Bytecode::Ret(_, srcs) if srcs.is_empty()));
    assert_eq!(f.def_attrid, vec![vec![0], vec![1], vec![2]]);
    assert_eq!(f.use_attrid, vec![vec![2], vec![2], vec![3]]);
}

#[test]
fn stack_underflow_is_reported() {
    let cm = module_with(vec![MoveBytecode::Pop, MoveBytecode::Ret], vec![]);
    assert!(cm.check_bounds());
    let mut g = StacklessBytecodeGenerator::new(&cm);
    assert!(!g.try_generate_function());
}

fn lift(cm: &CompiledModule) -> StacklessBytecodeGenerator<'_> {
    assert!(cm.check_bounds());
    let mut g = StacklessBytecodeGenerator::new(cm);
    assert!(g.try_generate_function());
    g
}

#[test]
fn conditional_branch_gets_labels_and_a_jump_before_the_join() {
    let cm = module_with(
        vec![
            MoveBytecode::LdTrue,
            MoveBytecode::BrTrue(4),
            MoveBytecode::LdU8(1),
            MoveBytecode::Pop,
            MoveBytecode::Ret,
        ],
        vec![],
    );
    let g = lift(&cm);
    let f = &g.functions[0];
    let expected = vec![
        Bytecode::Load(AttrId(0), 0, Constant::Bool(true)),
        Bytecode::Branch(AttrId(1), Label(0), Label(1), 0),
        Bytecode::Label(AttrId(2), Label(1)),
        Bytecode::Load(AttrId(3), 1, Constant::U8(1)),
        Bytecode::Call(AttrId(4), vec![], Operation::Destroy, vec![1], None),
        Bytecode::Jump(AttrId(5), Label(0)),
        Bytecode::Label(AttrId(5), Label(0)),
        Bytecode::Ret(AttrId(6), vec![]),
    ];
    assert_eq!(f.code, expected);
    assert_eq!(
        f.local_types,
        vec![Type::Primitive(PrimitiveType::Bool), Type::Primitive(PrimitiveType::U8)]
    );
    assert_eq!(f.location_table.len(), 7);
    assert_eq!(f.fallthrough_labels, vec![Label(1)]);
    assert_eq!(f.args_count, 0);
    assert_eq!(f.idx, 0);
}

#[test]
fn jump_behind_a_conditional_branch_is_folded_into_it() {
    let cm = module_with(
        vec![
            MoveBytecode::LdTrue,
            MoveBytecode::BrTrue(3),
            MoveBytecode::Branch(4),
            MoveBytecode::Nop,
            MoveBytecode::Ret,
        ],
        vec![],
    );
    let g = lift(&cm);
    let f = &g.functions[0];
    let expected = vec![
        Bytecode::Load(AttrId(0), 0, Constant::Bool(true)),
        Bytecode::Branch(AttrId(1), Label(0), Label(2), 0),
        Bytecode::Label(AttrId(4), Label(0)),
        Bytecode::Nop(AttrId(5)),
        Bytecode::Jump(AttrId(6), Label(2)),
        Bytecode::Label(AttrId(6), Label(2)),
        Bytecode::Ret(AttrId(7), vec![]),
    ];
    assert_eq!(f.code, expected);
}

#[test]
fn branch_on_false_swaps_the_targets() {
    let cm = module_with(
        vec![MoveBytecode::LdFalse, MoveBytecode::BrFalse(3), MoveBytecode::Nop, MoveBytecode::Ret],
        vec![],
    );
    let g = lift(&cm);
    let f = &g.functions[0];
    assert_eq!(f.code[1], Bytecode::Branch(AttrId(1), Label(1), Label(0), 0));
}

#[test]
fn locals_are_the_first_temps() {
    let cm = module_with(
        vec![
            MoveBytecode::LdU64(5),
            MoveBytecode::StLoc(0),
            MoveBytecode::CopyLoc(0),
            MoveBytecode::MoveLoc(0),
            MoveBytecode::Add,
            MoveBytecode::Pop,
            MoveBytecode::MutBorrowLoc(0),
            MoveBytecode::Pop,
            MoveBytecode::ImmBorrowLoc(0),
            MoveBytecode::Pop,
            MoveBytecode::Ret,
        ],
        vec![SignatureToken::U64],
    );
    let g = lift(&cm);
    let f = &g.functions[0];
    let u64_ty = || Type::Primitive(PrimitiveType::U64);
    assert_eq!(f.args_count, 1);
    assert_eq!(
        f.local_types,
        vec![
            u64_ty(),
            u64_ty(),
            u64_ty(),
            u64_ty(),
            u64_ty(),
            Type::Reference(true, Box::new(u64_ty())),
            Type::Reference(false, Box::new(u64_ty())),
        ]
    );
    let expected = vec![
        Bytecode::Load(AttrId(0), 1, Constant::U64(5)),
        Bytecode::Assign(AttrId(1), 0, 1, AssignKind::Store),
        Bytecode::Assign(AttrId(2), 2, 0, AssignKind::Copy),
        Bytecode::Assign(AttrId(3), 3, 0, AssignKind::Move),
        Bytecode::Call(AttrId(4), vec![4], Operation::Add, vec![2, 3], None),
        Bytecode::Call(AttrId(5), vec![], Operation::Destroy, vec![4], None),
        Bytecode::Call(AttrId(6), vec![5], Operation::BorrowLoc, vec![0], None),
        Bytecode::Call(AttrId(7), vec![], Operation::Destroy, vec![5], None),
        Bytecode::Call(AttrId(8), vec![6], Operation::BorrowLoc, vec![0], None),
        Bytecode::Call(AttrId(9), vec![], Operation::Destroy, vec![6], None),
        Bytecode::Ret(AttrId(10), vec![]),
    ];
    assert_eq!(f.code, expected);
    assert_eq!(f.def_attrid[0], vec![1]);
    assert_eq!(f.use_attrid[0], vec![2, 3, 6, 8]);
    assert_eq!(f.def_attrid[4], vec![4]);
    assert_eq!(f.use_attrid[4], vec![5]);
}

#[test]
fn every_temp_has_a_type_and_a_definition_before_its_use() {
    let cm = module_with(
        vec![
            MoveBytecode::LdU64(5),
            MoveBytecode::StLoc(0),
            MoveBytecode::CopyLoc(0),
            MoveBytecode::LdU64(10),
            MoveBytecode::Lt,
            MoveBytecode::BrFalse(11),
            MoveBytecode::CopyLoc(0),
            MoveBytecode::LdU64(1),
            MoveBytecode::Add,
            MoveBytecode::StLoc(0),
            MoveBytecode::Branch(2),
            MoveBytecode::Ret,
        ],
        vec![SignatureToken::U64],
    );
    let g = lift(&cm);
    let f = &g.functions[0];
    for (k, bc) in f.code.iter().enumerate() {
        let (dsts, srcs): (Vec<usize>, Vec<usize>) = match bc {
            Bytecode::Assign(_, d, s, _) => (vec![*d], vec![*s]),
            Bytecode::Call(_, ds, _, ss, _) => (ds.clone(), ss.clone()),
            Bytecode::Load(_, d, _) => (vec![*d], vec![]),
            Bytecode::Ret(_, ss) => (vec![], ss.clone()),
            Bytecode::Branch(_, _, _, c) => (vec![], vec![*c]),
            Bytecode::Abort(_, s) => (vec![], vec![*s]),
            _ => (vec![], vec![]),
        };
        for t in dsts.iter().chain(srcs.iter()) {
            assert!(*t < f.local_types.len());
        }
        for t in srcs {
            assert!(t < f.args_count || f.def_attrid[t].iter().any(|j| *j < k));
        }
    }
}

#[test]
fn vector_of_two_is_packed_by_pushes() {
    let cm = module_with(
        vec![
            MoveBytecode::LdU8(1),
            MoveBytecode::LdU8(2),
            MoveBytecode::VecPack(1, 2),
            MoveBytecode::Pop,
            MoveBytecode::Ret,
        ],
        vec![SignatureToken::U8],
    );
    let g = lift(&cm);
    let f = &g.functions[0];
    let u8_ty = || Type::Primitive(PrimitiveType::U8);
    let vec_ty = || Type::Vector(Box::new(u8_ty()));
    assert_eq!(
        f.local_types,
        vec![u8_ty(), u8_ty(), u8_ty(), vec_ty(), Type::Reference(true, Box::new(vec_ty()))]
    );
    assert_eq!(f.code.len(), 8);
    match &f.code[2] {
        Bytecode::Call(a, dsts, Operation::Function(m, fid, tys), srcs, None) => {
            assert_eq!(*a, AttrId(2));
            assert_eq!(dsts, &vec![3]);
            assert!(srcs.is_empty());
            assert_eq!(*m, g.vec_module_id);
            assert_eq!(g.symbol_pool.string(fid.symbol()), "empty");
            assert_eq!(tys, &vec![u8_ty()]);
        }
        _ => panic!("expected the empty vector"),
    }
    assert_eq!(f.code[3], Bytecode::Call(AttrId(2), vec![4], Operation::BorrowLoc, vec![3], None));
    for (i, src) in [(4usize, 1usize), (5, 2)] {
        match &f.code[i] {
            Bytecode::Call(_, dsts, Operation::Function(_, fid, _), srcs, None) => {
                assert!(dsts.is_empty());
                assert_eq!(srcs, &vec![4, src]);
                assert_eq!(g.symbol_pool.string(fid.symbol()), "push_back");
            }
            _ => panic!("expected a push"),
        }
    }
    assert_eq!(f.code[6], Bytecode::Call(AttrId(3), vec![], Operation::Destroy, vec![3], None));
}

#[test]
fn vector_is_unpacked_by_pops() {
    let cm = module_with(
        vec![
            MoveBytecode::VecPack(1, 0),
            MoveBytecode::VecUnpack(1, 2),
            MoveBytecode::Pop,
            MoveBytecode::Pop,
            MoveBytecode::Ret,
        ],
        vec![SignatureToken::U8],
    );
    let g = lift(&cm);
    let f = &g.functions[0];
    assert_eq!(f.code.len(), 8);
    assert_eq!(f.code[1], Bytecode::Call(AttrId(1), vec![4], Operation::BorrowLoc, vec![1], None));
    for (i, dst) in [(2usize, 2usize), (3, 3)] {
        match &f.code[i] {
            Bytecode::Call(_, dsts, Operation::Function(_, fid, _), srcs, None) => {
                assert_eq!(dsts, &vec![dst]);
                assert_eq!(srcs, &vec![4]);
                assert_eq!(g.symbol_pool.string(fid.symbol()), "pop_back");
            }
            _ => panic!("expected a pop"),
        }
    }
    match &f.code[4] {
        Bytecode::Call(_, dsts, Operation::Function(_, fid, _), srcs, None) => {
            assert!(dsts.is_empty());
            assert_eq!(srcs, &vec![1]);
            assert_eq!(g.symbol_pool.string(fid.symbol()), "destroy_empty");
        }
        _ => panic!("expected the destruction of the vector"),
    }
    assert_eq!(f.code[5], Bytecode::Call(AttrId(2), vec![], Operation::Destroy, vec![3], None));
    assert_eq!(f.code[6], Bytecode::Call(AttrId(3), vec![], Operation::Destroy, vec![2], None));
}

#[test]
fn reading_through_what_is_no_reference_is_refused() {
    let cm = module_with(vec![MoveBytecode::LdU8(1), MoveBytecode::ReadRef, MoveBytecode::Ret], vec![]);
    assert!(cm.check_bounds());
    let mut g = StacklessBytecodeGenerator::new(&cm);
    assert!(!g.try_generate_function());
}

#[test]
fn reading_through_a_reference_gives_the_inner_type() {
    let cm = module_with(
        vec![
            MoveBytecode::ImmBorrowLoc(0),
            MoveBytecode::ReadRef,
            MoveBytecode::Pop,
            MoveBytecode::MutBorrowLoc(0),
            MoveBytecode::FreezeRef,
            MoveBytecode::Pop,
            MoveBytecode::Ret,
        ],
        vec![SignatureToken::U16],
    );
    let g = lift(&cm);
    let f = &g.functions[0];
    let u16_ty = || Type::Primitive(PrimitiveType::U16);
    assert_eq!(f.local_types[2], u16_ty());
    assert_eq!(f.local_types[3], Type::Reference(true, Box::new(u16_ty())));
    assert_eq!(f.local_types[4], Type::Reference(false, Box::new(u16_ty())));
    assert_eq!(f.code[1], Bytecode::Call(AttrId(1), vec![2], Operation::ReadRef, vec![1], None));
    assert_eq!(f.code[4], Bytecode::Call(AttrId(4), vec![4], Operation::FreezeRef, vec![3], None));
}

#[test]
fn index_out_of_its_table_fails_the_bounds_check() {
    let cm = module_with(vec![MoveBytecode::CopyLoc(3), MoveBytecode::Ret], vec![]);
    assert!(!cm.check_bounds());
    let cm = module_with(vec![MoveBytecode::Branch(7), MoveBytecode::Ret], vec![]);
    assert!(!cm.check_bounds());
    let cm = module_with(vec![MoveBytecode::Call(1), MoveBytecode::Ret], vec![]);
    assert!(!cm.check_bounds());
    let cm = module_with(vec![MoveBytecode::LdConst(0), MoveBytecode::Ret], vec![]);
    assert!(!cm.check_bounds());
    let cm = module_with(vec![MoveBytecode::Ret], vec![]);
    assert!(cm.check_bounds());
}

#[test]
fn lifting_twice_gives_the_same() {
    let code = || {
        vec![
            MoveBytecode::LdTrue,
            MoveBytecode::BrTrue(4),
            MoveBytecode::LdU8(1),
            MoveBytecode::Pop,
            MoveBytecode::Ret,
        ]
    };
    let first = module_with(code(), vec![]);
    let second = module_with(code(), vec![]);
    let a = lift(&first);
    let b = lift(&second);
    assert_eq!(a.functions.len(), b.functions.len());
    for (x, y) in a.functions.iter().zip(b.functions.iter()) {
        assert_eq!(x.idx, y.idx);
        assert_eq!(x.name, y.name);
        assert_eq!(x.args_count, y.args_count);
        assert_eq!(x.code, y.code);
        assert_eq!(x.local_types, y.local_types);
        assert_eq!(x.fallthrough_labels, y.fallthrough_labels);
        assert_eq!(x.def_attrid, y.def_attrid);
        assert_eq!(x.use_attrid, y.use_attrid);
    }
}
