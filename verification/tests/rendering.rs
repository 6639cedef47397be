use move_scanner::move_ir::bytecode::{
    AbortAction, AssignKind, AttrId, BorrowNode, Bytecode, Constant, Label, Operation,
};
use move_scanner::move_ir::bytecode_display::{
    constant_str, display, oper_display, pretty_print_bytecode, primitive_str, temp_str,
    BorrowNode_display,
};
use move_scanner::move_ir::control_flow_graph::BlockContent;
use move_scanner::move_ir::file_format::{
    CodeUnit, CompiledModule, FieldDefinition, FunctionDefinition, FunctionHandle, ModuleHandle,
    MoveBytecode, Signature, SignatureToken, StructDefinition, StructFieldInformation,
    StructHandle, Visibility,
};
use move_scanner::move_ir::packages::Packages;
use move_scanner::move_ir::types::{FunId, ModuleId, PrimitiveType, QualifiedId, StructId, Type};
use move_scanner::move_ir::u256::U256;
use move_scanner::utils::utils::format_vec_u8;

fn sample() -> CompiledModule {
    CompiledModule {
        self_module_handle_idx: 0,
        module_handles: vec![ModuleHandle { address: 0, name: 0 }],
        struct_handles: vec![StructHandle { module: 0, name: 3, abilities: 12 }],
        function_handles: vec![
            FunctionHandle { module: 0, name: 1, parameters: 1, return_: 1, type_parameters: 0 },
            FunctionHandle { module: 0, name: 2, parameters: 0, return_: 0, type_parameters: 2 },
            FunctionHandle { module: 0, name: 6, parameters: 2, return_: 2, type_parameters: 0 },
        ],
        field_handles: vec![],
        struct_def_instantiations: vec![],
        function_instantiations: vec![],
        field_instantiations: vec![],
        signatures: vec![
            Signature(vec![]),
            Signature(vec![SignatureToken::U64]),
            Signature(vec![SignatureToken::U8, SignatureToken::Bool]),
        ],
        identifiers: vec![
            "m".to_string(),
            "f".to_string(),
            "n".to_string(),
            "Coin".to_string(),
            "value".to_string(),
            "owner".to_string(),
            "pair".to_string(),
        ],
        address_identifiers: vec![U256::new(1)],
        constant_pool: vec![],
        struct_defs: vec![StructDefinition {
            struct_handle: 0,
            field_information: StructFieldInformation::Declared(vec![
                FieldDefinition { name: 4, signature: SignatureToken::U64 },
                FieldDefinition { name: 5, signature: SignatureToken::Address },
            ]),
        }],
        function_defs: vec![
            FunctionDefinition {
                function: 0,
                visibility: Visibility::Public,
                is_entry: false,
                code: Some(CodeUnit {
                    locals: 0,
                    code: vec![
                        MoveBytecode::CopyLoc(0),
                        MoveBytecode::LdU64(1),
                        MoveBytecode::Add,
                        MoveBytecode::Ret,
                    ],
                }),
            },
            FunctionDefinition {
                function: 1,
                visibility: Visibility::Friend,
                is_entry: false,
                code: None,
            },
            FunctionDefinition {
                function: 2,
                visibility: Visibility::Private,
                is_entry: true,
                code: Some(CodeUnit {
                    locals: 1,
                    code: vec![MoveBytecode::MoveLoc(0), MoveBytecode::MoveLoc(1), MoveBytecode::Ret],
                }),
            },
        ],
    }
}

fn prim(p: PrimitiveType) -> Type {
    Type::Primitive(p)
}

#[test]
fn temps_and_primitive_types_have_names() {
    assert_eq!(temp_str(0), "$t0");
    assert_eq!(temp_str(12), "$t12");
    assert_eq!(primitive_str(PrimitiveType::Bool), "bool");
    assert_eq!(primitive_str(PrimitiveType::U8), "u8");
    assert_eq!(primitive_str(PrimitiveType::U16), "u16");
    assert_eq!(primitive_str(PrimitiveType::U32), "u32");
    assert_eq!(primitive_str(PrimitiveType::U64), "u64");
    assert_eq!(primitive_str(PrimitiveType::U128), "u128");
    assert_eq!(primitive_str(PrimitiveType::U256), "u256");
    assert_eq!(primitive_str(PrimitiveType::Address), "address");
    assert_eq!(primitive_str(PrimitiveType::Signer), "signer");
}

#[test]
fn types_are_written_with_their_arguments() {
    let cms = vec![sample()];
    let p = Packages::try_new(&cms).expect("the module can be lifted");
    let g = &p.packages[0].1;
    let coin = g.symbol_pool.find(&"Coin".to_string()).expect("the name is interned");
    assert_eq!(g.display_type(&prim(PrimitiveType::U8)), "u8");
    assert_eq!(g.display_type(&Type::Vector(Box::new(prim(PrimitiveType::U8)))), "vector<u8>");
    assert_eq!(g.display_type(&Type::Reference(true, Box::new(prim(PrimitiveType::U64)))), "&mut u64");
    assert_eq!(g.display_type(&Type::Reference(false, Box::new(prim(PrimitiveType::Bool)))), "&bool");
    assert_eq!(g.display_type(&Type::TypeParameter(2)), "#2");
    assert_eq!(
        g.display_type(&Type::Tuple(vec![prim(PrimitiveType::U8), prim(PrimitiveType::Bool)])),
        "(u8, bool)"
    );
    assert_eq!(g.display_type(&Type::Tuple(vec![])), "()");
    assert_eq!(g.display_type(&Type::Struct(ModuleId(0), StructId(coin), vec![])), "m::Coin");
    assert_eq!(
        g.display_type(&Type::Struct(
            ModuleId(0),
            StructId(coin),
            vec![prim(PrimitiveType::U8), Type::TypeParameter(0)]
        )),
        "m::Coin<u8, #0>"
    );
    assert_eq!(
        g.display_type(&Type::Struct(ModuleId(99), StructId(coin), vec![])),
        "??unknown??::Coin"
    );
    assert_eq!(
        g.get_fname_by_qid(&QualifiedId {
            module_id: ModuleId(0),
            id: FunId(g.symbol_pool.find(&"f".to_string()).expect("the name is interned")),
        }),
        "m::f"
    );
}

#[test]
fn constants_are_written_by_their_value() {
    assert_eq!(constant_str(&Constant::Bool(true)), "true");
    assert_eq!(constant_str(&Constant::Bool(false)), "false");
    assert_eq!(constant_str(&Constant::U8(7)), "7");
    assert_eq!(constant_str(&Constant::U16(700)), "700");
    assert_eq!(constant_str(&Constant::U32(70000)), "70000");
    assert_eq!(constant_str(&Constant::U64(u64::MAX)), "18446744073709551615");
    assert_eq!(constant_str(&Constant::U128(0)), "0");
    assert_eq!(
        constant_str(&Constant::U256(U256::from_words(1, 0))),
        "340282366920938463463374607431768211456"
    );
    assert_eq!(constant_str(&Constant::Address(U256::new(0xab))), "0xab");
    assert_eq!(constant_str(&Constant::Address(U256::zero())), "0x0");
    assert_eq!(constant_str(&Constant::ByteArray(vec![1, 20, 255])), "[1, 20, 255]");
    assert_eq!(constant_str(&Constant::ByteArray(vec![])), "[]");
    assert_eq!(
        constant_str(&Constant::AddressArray(vec![U256::new(1), U256::new(0x10)])),
        "[0x1, 0x10]"
    );
    assert_eq!(
        constant_str(&Constant::Vector(vec![
            Constant::U8(1),
            Constant::Vector(vec![Constant::Bool(true), Constant::Bool(false)])
        ])),
        "[1, [true, false]]"
    );
}

#[test]
fn operations_are_written_by_sign_or_name() {
    let cms = vec![sample()];
    let p = Packages::try_new(&cms).expect("the module can be lifted");
    let g = &p.packages[0].1;
    let coin = StructId(g.symbol_pool.find(&"Coin".to_string()).expect("the name is interned"));
    let f = FunId(g.symbol_pool.find(&"f".to_string()).expect("the name is interned"));
    let m = ModuleId(0);
    let u8_ty = || prim(PrimitiveType::U8);
    let plain = [
        (Operation::Add, "+"),
        (Operation::Sub, "-"),
        (Operation::Mul, "*"),
        (Operation::Div, "/"),
        (Operation::Mod, "%"),
        (Operation::BitOr, "|"),
        (Operation::BitAnd, "&"),
        (Operation::Xor, "^"),
        (Operation::Shl, "<<"),
        (Operation::Shr, ">>"),
        (Operation::Lt, "<"),
        (Operation::Gt, ">"),
        (Operation::Le, "<="),
        (Operation::Ge, ">="),
        (Operation::Or, "||"),
        (Operation::And, "&&"),
        (Operation::Eq, "=="),
        (Operation::Neq, "!="),
        (Operation::Not, "!"),
        (Operation::CastU8, "(u8)"),
        (Operation::CastU16, "(u16)"),
        (Operation::CastU32, "(u32)"),
        (Operation::CastU64, "(u64)"),
        (Operation::CastU128, "(u128)"),
        (Operation::CastU256, "(u256)"),
        (Operation::BorrowLoc, "borrow_local"),
        (Operation::Uninit, "uninit"),
        (Operation::Destroy, "destroy"),
        (Operation::ReadRef, "read_ref"),
        (Operation::WriteRef, "write_ref"),
        (Operation::FreezeRef, "freeze_ref"),
        (Operation::WriteBack(BorrowNode::LocalRoot(1)), ""),
    ];
    for (op, text) in plain.iter() {
        assert_eq!(oper_display(op, g), *text);
    }
    assert_eq!(oper_display(&Operation::Function(m, f, vec![]), g), "m::f");
    assert_eq!(
        oper_display(&Operation::Function(m, f, vec![u8_ty(), Type::TypeParameter(1)]), g),
        "m::f<u8, #1>"
    );
    assert_eq!(oper_display(&Operation::Pack(m, coin, vec![]), g), "pack m::Coin");
    assert_eq!(oper_display(&Operation::Unpack(m, coin, vec![u8_ty()]), g), "unpack m::Coin<u8>");
    assert_eq!(oper_display(&Operation::MoveTo(m, coin, vec![]), g), "move_to<m::Coin>");
    assert_eq!(oper_display(&Operation::MoveFrom(m, coin, vec![]), g), "move_from<m::Coin>");
    assert_eq!(oper_display(&Operation::Exists(m, coin, vec![]), g), "exists<m::Coin>");
    assert_eq!(
        oper_display(&Operation::BorrowGlobal(m, coin, vec![u8_ty()]), g),
        "borrow_global<m::Coin<u8>>"
    );
    assert_eq!(
        oper_display(&Operation::BorrowField(m, coin, vec![], 0), g),
        "borrow_field<m::Coin>.value"
    );
    assert_eq!(
        oper_display(&Operation::BorrowField(m, coin, vec![], 1), g),
        "borrow_field<m::Coin>.owner"
    );
    assert_eq!(
        oper_display(&Operation::BorrowField(m, coin, vec![], 2), g),
        "borrow_field<m::Coin>"
    );
}

#[test]
fn instructions_are_written_in_three_address_form() {
    let cms = vec![sample()];
    let p = Packages::try_new(&cms).expect("the module can be lifted");
    let g = &p.packages[0].1;
    let a = AttrId(0);
    let code = vec![
        Bytecode::Nop(a),
        Bytecode::Label(a, Label(3)),
        Bytecode::Nop(a),
        Bytecode::Label(a, Label(3)),
    ];
    let show = |bc: Bytecode| display(&bc, &code, g);
    assert_eq!(show(Bytecode::Assign(a, 1, 0, AssignKind::Copy)), "$t1 := copy($t0)");
    assert_eq!(show(Bytecode::Assign(a, 1, 0, AssignKind::Move)), "$t1 := move($t0)");
    assert_eq!(show(Bytecode::Assign(a, 1, 0, AssignKind::Store)), "$t1 := $t0");
    assert_eq!(show(Bytecode::Load(a, 2, Constant::U8(7))), "$t2 := 7");
    assert_eq!(show(Bytecode::Call(a, vec![3], Operation::Add, vec![1, 2], None)), "$t3 := +($t1, $t2)");
    assert_eq!(show(Bytecode::Call(a, vec![], Operation::Destroy, vec![1], None)), "destroy($t1)");
    assert_eq!(
        show(Bytecode::Call(a, vec![3, 4], Operation::Not, vec![], None)),
        "($t3, $t4) := !()"
    );
    assert_eq!(
        show(Bytecode::Call(a, vec![3], Operation::Not, vec![1], Some(AbortAction(Label(3), 9)))),
        "$t3 := !($t1) on_abort goto 3 with $t9"
    );
    assert_eq!(
        show(Bytecode::Call(a, vec![3], Operation::Not, vec![1], Some(AbortAction(Label(5), 9)))),
        "$t3 := !($t1) on_abort goto L5 with $t9"
    );
    assert_eq!(show(Bytecode::Ret(a, vec![])), "return ()");
    assert_eq!(show(Bytecode::Ret(a, vec![1])), "return $t1");
    assert_eq!(show(Bytecode::Ret(a, vec![1, 2])), "return ($t1, $t2)");
    assert_eq!(
        show(Bytecode::Branch(a, Label(3), Label(4), 1)),
        "if ($t1) goto 3 else goto L4"
    );
    assert_eq!(show(Bytecode::Jump(a, Label(3))), "goto 3");
    assert_eq!(show(Bytecode::Jump(a, Label(0))), "goto L0");
    assert_eq!(show(Bytecode::Label(a, Label(3))), "label L3");
    assert_eq!(show(Bytecode::Abort(a, 4)), "abort($t4)");
    assert_eq!(show(Bytecode::Nop(a)), "nop");
    assert_eq!(pretty_print_bytecode(&code, 0, &Bytecode::Nop(a), g), "  0: nop");
    assert_eq!(pretty_print_bytecode(&code, 12, &Bytecode::Nop(a), g), " 12: nop");
    assert_eq!(pretty_print_bytecode(&code, 123, &Bytecode::Nop(a), g), "123: nop");
    assert_eq!(pretty_print_bytecode(&code, 1234, &Bytecode::Nop(a), g), "1234: nop");
}

#[test]
fn borrow_nodes_are_written_by_their_origin() {
    assert_eq!(BorrowNode_display(&BorrowNode::GlobalRoot), "");
    assert_eq!(BorrowNode_display(&BorrowNode::LocalRoot(2)), "LocalRoot($t2)");
    assert_eq!(BorrowNode_display(&BorrowNode::Reference(3)), "Reference($t3)");
    assert_eq!(BorrowNode_display(&BorrowNode::ReturnPlaceholder(1)), "Return(1)");
}

#[test]
fn module_is_listed_function_by_function() {
    let cms = vec![sample()];
    let p = Packages::try_new(&cms).expect("the module can be lifted");
    let g = &p.packages[0].1;
    let first = "public  fun m::f($t0: u64): u64 {\n\
                 \x20    var $t1: u64\n\
                 \x20    var $t2: u64\n\
                 \x20    var $t3: u64\n\
                 \x20 0: $t1 := copy($t0)\n\
                 \x20 1: $t2 := 1\n\
                 \x20 2: $t3 := +($t1, $t2)\n\
                 \x20 3: return $t3\n\
                 }\n";
    let second = "public(friend) native  fun m::n<#0, #1>();\n";
    let third = "entry fun m::pair($t0|$t0: u8, $t1: bool): (u8, bool) {\n\
                 \x20    var $t2: u64\n\
                 \x20    var $t3: u8\n\
                 \x20    var $t4: bool\n\
                 \x20 0: $t3 := move($t0)\n\
                 \x20 1: $t4 := move($t1)\n\
                 \x20 2: return ($t3, $t4)\n\
                 }\n";
    assert_eq!(g.display(true, Some(0)), first);
    assert_eq!(g.display(true, Some(1)), second);
    assert_eq!(g.display(true, Some(2)), third);
    assert_eq!(g.display(true, None), format!("{}{}{}", first, second, third));
    assert_eq!(g.display(false, Some(0)), "public  fun m::f(u64): u64\n");
    assert_eq!(g.display(false, Some(1)), "public(friend) native  fun m::n<#0, #1>()\n");
    assert_eq!(g.display(false, Some(2)), "entry fun m::pair(u8, bool): (u8, bool)\n");
    assert_eq!(g.get_local_name(4), "$t4");
}

#[test]
fn block_is_listed_under_its_range() {
    let cms = vec![sample()];
    let p = Packages::try_new(&cms).expect("the module can be lifted");
    let g = &p.packages[0].1;
    let code = &g.functions[0].code;
    assert_eq!(
        g.block_listing(code, 2, &BlockContent::Basic { lower: 1, upper: 2 }),
        "[Block 2 - offset 1..=2]\n  1: $t2 := 1\n  2: $t3 := +($t1, $t2)\n"
    );
    assert_eq!(g.block_listing(code, 0, &BlockContent::Dummy), "[Block 0 - X]\n");
}

#[test]
fn dependency_trees_are_written_as_nested_operations() {
    let cms = vec![sample()];
    let p = Packages::try_new(&cms).expect("the module can be lifted");
    let g = &p.packages[0].1;
    let table = &g.data_dependency[0].data;
    let text = |t: usize| table[t].as_ref().expect("the temp has a tree").text(g);
    assert_eq!(text(0), "u64");
    assert_eq!(text(1), "u64");
    assert_eq!(text(2), "1");
    assert_eq!(text(3), "+(u64, 1)");
    let mut out = "max of ".to_string();
    table[3].as_ref().expect("the temp has a tree").display(&mut out, g);
    assert_eq!(out, "max of +(u64, 1)");
}

#[test]
fn bytes_are_shown_by_their_number() {
    assert_eq!(format_vec_u8(&vec![1, 0, 0, 0, 0, 0, 0, 0]), "1");
    assert_eq!(format_vec_u8(&vec![0, 1, 0, 0, 0, 0, 0, 0]), "256");
    assert_eq!(format_vec_u8(&vec![255; 8]), "18446744073709551615");
    assert_eq!(
        format_vec_u8(&vec![1, 0, 0, 0, 0, 0, 0, 0, 0, 0, 0, 0, 0, 0, 0, 0xab]),
        "010000000000000000000000000000ab/227297987279220614266551007307938922497"
    );
    assert_eq!(
        format_vec_u8(&vec![255; 16]),
        "ffffffffffffffffffffffffffffffff/340282366920938463463374607431768211455"
    );
    assert_eq!(format_vec_u8(&vec![104, 105]), "hi");
    assert_eq!(format_vec_u8(&vec![]), "");
    assert_eq!(format_vec_u8(&vec![233]), "\u{e9}");
}
