use move_scanner::move_ir::bytecode::Constant;
use move_scanner::move_ir::data_dependency::{DataDepent, Node, Val};
use move_scanner::move_ir::file_format::MoveValue;
use move_scanner::move_ir::generate_bytecode::FunctionInfo;
use move_scanner::move_ir::types::{
    clone_type, type_eq, types_eq, FunId, Loc, ModuleId, ModuleName, PrimitiveType, StructId,
    Symbol, SymbolPool, Type,
};
use move_scanner::move_ir::u256::U256;
use move_scanner::move_ir::utils::translate_value;

fn prim(p: PrimitiveType) -> Type {
    Type::Primitive(p)
}

#[test]
fn pool_gives_each_text_one_handle() {
    let mut pool = SymbolPool::new();
    assert_eq!(pool.len(), 0);
    let a = pool.make("a");
    let b = pool.make("b");
    let again = pool.make("a");
    assert_eq!(a, Symbol(0));
    assert_eq!(b, Symbol(1));
    assert_eq!(again, a);
    assert_eq!(pool.len(), 2);
    assert_eq!(pool.string(a), "a");
    assert_eq!(pool.string(b), "b");
    assert_eq!(pool.find(&"b".to_string()), Some(b));
    assert_eq!(pool.find(&"c".to_string()), None);
}

#[test]
fn identifiers_wrap_their_parts() {
    assert_eq!(ModuleId::new(3).to_usize(), 3);
    assert_eq!(FunId::new(Symbol(4)).symbol(), Symbol(4));
    assert_eq!(StructId::new(Symbol(5)).symbol(), Symbol(5));
    let name = ModuleName::new(U256::new(7), Symbol(2));
    assert_eq!(name.addr(), U256::new(7));
    assert_eq!(name.name(), Symbol(2));
    assert_eq!(Loc::default_loc(), Loc::default_loc());
}

#[test]
fn type_parameters_are_replaced_by_the_actuals() {
    let generic = Type::Struct(
        ModuleId(0),
        StructId(Symbol(1)),
        vec![
            Type::TypeParameter(1),
            Type::Vector(Box::new(Type::TypeParameter(0))),
            Type::Reference(true, Box::new(Type::Tuple(vec![Type::TypeParameter(0)]))),
        ],
    );
    let actuals = vec![prim(PrimitiveType::U8), prim(PrimitiveType::Bool)];
    let expected = Type::Struct(
        ModuleId(0),
        StructId(Symbol(1)),
        vec![
            prim(PrimitiveType::Bool),
            Type::Vector(Box::new(prim(PrimitiveType::U8))),
            Type::Reference(true, Box::new(Type::Tuple(vec![prim(PrimitiveType::U8)]))),
        ],
    );
    assert_eq!(generic.try_instantiate(&actuals), Some(expected));
    assert_eq!(generic.try_instantiate(&vec![prim(PrimitiveType::U8)]), None);
    assert_eq!(generic.try_instantiate(&vec![]), Some(clone_type(&generic)));
    assert_eq!(prim(PrimitiveType::U8).try_instantiate(&vec![]), Some(prim(PrimitiveType::U8)));
    assert_eq!(Type::TypeParameter(0).instantiate(&actuals), prim(PrimitiveType::U8));
}

#[test]
fn types_are_compared_by_structure() {
    let a = Type::Vector(Box::new(prim(PrimitiveType::U8)));
    let b = Type::Vector(Box::new(prim(PrimitiveType::U8)));
    let c = Type::Vector(Box::new(prim(PrimitiveType::U16)));
    assert!(type_eq(&a, &b));
    assert!(!type_eq(&a, &c));
    assert!(!type_eq(&a, &prim(PrimitiveType::U8)));
    assert!(types_eq(&vec![a, c], &vec![b, Type::Vector(Box::new(prim(PrimitiveType::U16)))]));
    assert!(!types_eq(&vec![prim(PrimitiveType::U8)], &vec![]));
    assert!(Type::Reference(true, Box::new(prim(PrimitiveType::U8))).is_mutable_reference());
    assert!(!Type::Reference(false, Box::new(prim(PrimitiveType::U8))).is_mutable_reference());
    assert!(!prim(PrimitiveType::U8).is_mutable_reference());
}

#[test]
fn pool_values_are_read_against_their_type() {
    let u8_ty = prim(PrimitiveType::U8);
    let address = prim(PrimitiveType::Address);
    let vector = |t: Type| Type::Vector(Box::new(t));
    assert_eq!(translate_value(&u8_ty, &MoveValue::U8(3)), Some(Constant::U8(3)));
    assert_eq!(translate_value(&prim(PrimitiveType::Bool), &MoveValue::Bool(true)), Some(Constant::Bool(true)));
    assert_eq!(translate_value(&prim(PrimitiveType::U16), &MoveValue::U16(3)), Some(Constant::U16(3)));
    assert_eq!(translate_value(&prim(PrimitiveType::U32), &MoveValue::U32(3)), Some(Constant::U32(3)));
    assert_eq!(translate_value(&prim(PrimitiveType::U64), &MoveValue::U64(3)), Some(Constant::U64(3)));
    assert_eq!(translate_value(&prim(PrimitiveType::U128), &MoveValue::U128(3)), Some(Constant::U128(3)));
    assert_eq!(
        translate_value(&prim(PrimitiveType::U256), &MoveValue::U256(U256::new(3))),
        Some(Constant::U256(U256::new(3)))
    );
    assert_eq!(
        translate_value(&address, &MoveValue::Address(U256::new(9))),
        Some(Constant::Address(U256::new(9)))
    );
    assert_eq!(translate_value(&u8_ty, &MoveValue::U64(3)), None);
    assert_eq!(translate_value(&prim(PrimitiveType::Signer), &MoveValue::Signer(U256::new(1))), None);
    assert_eq!(translate_value(&u8_ty, &MoveValue::Struct(vec![])), None);
    assert_eq!(
        translate_value(&vector(prim(PrimitiveType::U8)), &MoveValue::Vector(vec![MoveValue::U8(1), MoveValue::U8(2)])),
        Some(Constant::ByteArray(vec![1, 2]))
    );
    assert_eq!(
        translate_value(&vector(prim(PrimitiveType::U8)), &MoveValue::Vector(vec![])),
        Some(Constant::ByteArray(vec![]))
    );
    assert_eq!(
        translate_value(
            &vector(prim(PrimitiveType::Address)),
            &MoveValue::Vector(vec![MoveValue::Address(U256::new(1))])
        ),
        Some(Constant::AddressArray(vec![U256::new(1)]))
    );
    assert_eq!(
        translate_value(
            &vector(vector(prim(PrimitiveType::U8))),
            &MoveValue::Vector(vec![MoveValue::Vector(vec![MoveValue::U8(1)])])
        ),
        Some(Constant::Vector(vec![Constant::ByteArray(vec![1])]))
    );
    assert_eq!(
        translate_value(
            &vector(prim(PrimitiveType::U64)),
            &MoveValue::Vector(vec![MoveValue::U64(1), MoveValue::U64(2)])
        ),
        Some(Constant::Vector(vec![Constant::U64(1), Constant::U64(2)]))
    );
    assert_eq!(
        translate_value(
            &vector(prim(PrimitiveType::U64)),
            &MoveValue::Vector(vec![MoveValue::U64(1), MoveValue::U8(2)])
        ),
        None
    );
}

#[test]
fn trees_are_built_from_their_parts() {
    let leaf = |x: u8| Node::new(Val::Const(Constant::U8(x)), Some(U256::new(x as u128)), true);
    let single = leaf(1);
    assert_eq!(single.value, Val::Const(Constant::U8(1)));
    assert!(single.subnodes.is_empty());
    assert_eq!(single.max, Some(U256::new(1)));
    assert!(single.is_constant);
    assert!(single.is_const());
    let param = Node::new(Val::ParamType(prim(PrimitiveType::U8)), Some(U256::new(255)), false);
    assert!(!param.is_const());
    let unary = Node::new_with_node(Val::Const(Constant::Bool(true)), leaf(2), None, false);
    assert_eq!(unary.subnodes, vec![leaf(2)]);
    let binary =
        Node::new_with_binary_nodes(Val::Const(Constant::Bool(true)), leaf(3), leaf(4), None, true);
    assert_eq!(binary.subnodes, vec![leaf(3), leaf(4)]);
    let many = Node::newy_with_nodes(
        Val::Const(Constant::Bool(true)),
        vec![leaf(5), leaf(6), leaf(7)],
        Some(U256::new(9)),
        false,
    );
    assert_eq!(many.subnodes.len(), 3);
    assert_eq!(many.max, Some(U256::new(9)));
    let mut found = vec![42];
    many.loop_condition_from_copy(&mut found);
    assert_eq!(found, vec![42]);
}

#[test]
fn table_holds_one_tree_for_each_temp() {
    let mut table = DataDepent::with_temps(3);
    assert_eq!(table.data.len(), 3);
    assert_eq!(table.get(0), None);
    assert_eq!(table.get(7), None);
    let leaf = |x: u8| Node::new(Val::Const(Constant::U8(x)), Some(U256::new(x as u128)), true);
    table.insert_or_modify(1, leaf(1));
    assert_eq!(table.get(1), Some(leaf(1)));
    table.insert_or_modify(1, leaf(2));
    assert_eq!(table.get(1), Some(leaf(2)));
    assert_eq!(table.get(0), None);
    assert_eq!(table.get(2), None);
}

#[test]
fn new_function_is_empty() {
    let f = FunctionInfo::new(2, "f".to_string());
    assert_eq!(f.idx, 2);
    assert_eq!(f.name, "f");
    assert_eq!(f.args_count, 0);
    assert!(f.code.is_empty());
    assert!(f.local_types.is_empty());
    assert!(f.location_table.is_empty());
    assert!(f.loop_invariants.is_empty());
    assert!(f.fallthrough_labels.is_empty());
    assert!(f.cfg.is_none());
    assert!(f.def_attrid.is_empty());
    assert!(f.use_attrid.is_empty());
}
