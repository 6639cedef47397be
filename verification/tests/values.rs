use move_scanner::move_ir::bytecode::{Constant, Operation};
use move_scanner::move_ir::data_dependency::{
    binary_operation_max, get_min_uint, get_ubits, get_uint_constant, get_uint_max, is_uint,
};
use move_scanner::move_ir::file_format::{MoveValue, Visibility};
use move_scanner::move_ir::types::{PrimitiveType, Type};
use move_scanner::move_ir::u256::U256;
use move_scanner::utils::strings::{insert_sorted, join, sort_dedup};
use move_scanner::utils::utils::{debug_string, visibility_str};

fn n(x: u128) -> Option<U256> {
    Some(U256::new(x))
}

fn prim(p: PrimitiveType) -> Type {
    Type::Primitive(p)
}

fn u8_ty() -> Type {
    prim(PrimitiveType::U8)
}

fn u64_ty() -> Type {
    prim(PrimitiveType::U64)
}

fn u256_ty() -> Type {
    prim(PrimitiveType::U256)
}

fn texts(v: &[&str]) -> Vec<String> {
    v.iter().map(|s| s.to_string()).collect()
}

#[test]
fn u256_is_two_words() {
    assert_eq!(U256::new(5), U256 { hi: 0, lo: 5 });
    assert_eq!(U256::from_words(1, 2), U256 { hi: 1, lo: 2 });
    assert_eq!(U256::zero(), U256 { hi: 0, lo: 0 });
    assert_eq!(U256::max_value(), U256 { hi: u128::MAX, lo: u128::MAX });
}

#[test]
fn u256_order_goes_by_the_high_word_first() {
    let small = U256::from_words(0, u128::MAX);
    let large = U256::from_words(1, 0);
    assert!(small.lt(&large));
    assert!(!large.lt(&small));
    assert!(!small.lt(&small));
    assert!(small.le(&small));
    assert!(small.le(&large));
    assert!(!large.le(&small));
    assert_eq!(small.min(large), small);
    assert_eq!(large.min(small), small);
}

#[test]
fn u256_as_u32_keeps_the_low_bits() {
    assert_eq!(U256::new(7).as_u32(), 7);
    assert_eq!(U256::new(0x1_0000_0005).as_u32(), 5);
    assert_eq!(U256::from_words(9, 0).as_u32(), 0);
}

#[test]
fn unsigned_types_have_bits_and_a_largest_value() {
    assert!(is_uint(&u8_ty()));
    assert!(is_uint(&u256_ty()));
    assert!(!is_uint(&prim(PrimitiveType::Bool)));
    assert!(!is_uint(&prim(PrimitiveType::Address)));
    assert!(!is_uint(&Type::Vector(Box::new(u8_ty()))));
    assert_eq!(get_ubits(&u8_ty()), 8);
    assert_eq!(get_ubits(&prim(PrimitiveType::U16)), 16);
    assert_eq!(get_ubits(&prim(PrimitiveType::U32)), 32);
    assert_eq!(get_ubits(&u64_ty()), 64);
    assert_eq!(get_ubits(&prim(PrimitiveType::U128)), 128);
    assert_eq!(get_ubits(&u256_ty()), 256);
    assert_eq!(get_ubits(&prim(PrimitiveType::Bool)), 0);
    assert_eq!(get_uint_max(&u8_ty()), n(255));
    assert_eq!(get_uint_max(&prim(PrimitiveType::U16)), n(65535));
    assert_eq!(get_uint_max(&prim(PrimitiveType::U32)), n(4294967295));
    assert_eq!(get_uint_max(&u64_ty()), n(u64::MAX as u128));
    assert_eq!(get_uint_max(&prim(PrimitiveType::U128)), n(u128::MAX));
    assert_eq!(get_uint_max(&u256_ty()), Some(U256::max_value()));
    assert_eq!(get_uint_max(&prim(PrimitiveType::Bool)), None);
    assert_eq!(get_uint_max(&prim(PrimitiveType::Signer)), None);
}

#[test]
fn unsigned_constants_have_a_value() {
    assert_eq!(get_uint_constant(&Constant::U8(7)), n(7));
    assert_eq!(get_uint_constant(&Constant::U16(700)), n(700));
    assert_eq!(get_uint_constant(&Constant::U32(70000)), n(70000));
    assert_eq!(get_uint_constant(&Constant::U64(u64::MAX)), n(u64::MAX as u128));
    assert_eq!(get_uint_constant(&Constant::U128(u128::MAX)), n(u128::MAX));
    assert_eq!(
        get_uint_constant(&Constant::U256(U256::from_words(3, 4))),
        Some(U256::from_words(3, 4))
    );
    assert_eq!(get_uint_constant(&Constant::Bool(true)), None);
    assert_eq!(get_uint_constant(&Constant::Address(U256::new(1))), None);
}

#[test]
fn smaller_of_two_bounds() {
    assert_eq!(get_min_uint(n(3), n(9)), n(3));
    assert_eq!(get_min_uint(n(9), n(3)), n(3));
    assert_eq!(get_min_uint(None, n(3)), None);
    assert_eq!(get_min_uint(n(3), None), None);
}

#[test]
fn sum_is_clipped_to_the_type() {
    assert_eq!(binary_operation_max(&Operation::Add, n(100), n(100), true, true, &u8_ty()), Some((U256::new(200), true)));
    assert_eq!(binary_operation_max(&Operation::Add, n(200), n(100), true, false, &u8_ty()), Some((U256::new(255), false)));
    assert_eq!(binary_operation_max(&Operation::Add, n(200), n(100), false, false, &u64_ty()), Some((U256::new(300), false)));
    assert_eq!(
        binary_operation_max(&Operation::Add, Some(U256::max_value()), n(1), true, true, &u256_ty()),
        Some((U256::max_value(), true))
    );
    assert_eq!(binary_operation_max(&Operation::Add, n(1), n(1), true, true, &prim(PrimitiveType::Bool)), None);
    assert_eq!(binary_operation_max(&Operation::BitOr, n(8), n(4), true, true, &u8_ty()), Some((U256::new(12), true)));
    assert_eq!(binary_operation_max(&Operation::Xor, n(255), n(255), false, true, &u8_ty()), Some((U256::new(255), false)));
}

#[test]
fn product_is_clipped_to_the_type() {
    assert_eq!(binary_operation_max(&Operation::Mul, n(10), n(10), true, true, &u8_ty()), Some((U256::new(100), true)));
    assert_eq!(binary_operation_max(&Operation::Mul, n(100), n(100), true, true, &u8_ty()), Some((U256::new(255), true)));
    assert_eq!(binary_operation_max(&Operation::Mul, n(100), n(100), true, false, &u64_ty()), Some((U256::new(10000), false)));
    assert_eq!(
        binary_operation_max(
            &Operation::Mul,
            Some(U256::max_value()),
            Some(U256::max_value()),
            false,
            false,
            &u256_ty()
        ),
        Some((U256::max_value(), false))
    );
    assert_eq!(
        binary_operation_max(&Operation::Mul, n(u128::MAX), n(2), true, true, &u256_ty()),
        Some((U256::from_words(1, u128::MAX - 1), true))
    );
}

#[test]
fn difference_of_constants_is_exact() {
    assert_eq!(binary_operation_max(&Operation::Sub, n(10), n(3), true, true, &u8_ty()), Some((U256::new(7), true)));
    assert_eq!(binary_operation_max(&Operation::Sub, n(3), n(10), true, true, &u8_ty()), None);
    assert_eq!(binary_operation_max(&Operation::Sub, n(10), n(3), false, true, &u8_ty()), Some((U256::new(7), false)));
    assert_eq!(binary_operation_max(&Operation::Sub, n(3), n(10), false, true, &u8_ty()), Some((U256::new(3), false)));
    assert_eq!(binary_operation_max(&Operation::Sub, n(10), n(3), true, false, &u8_ty()), Some((U256::new(10), false)));
    assert_eq!(
        binary_operation_max(&Operation::Sub, Some(U256::from_words(1, 0)), n(1), true, true, &u256_ty()),
        Some((U256::new(u128::MAX), true))
    );
}

#[test]
fn remainder_is_below_the_divisor() {
    assert_eq!(binary_operation_max(&Operation::Mod, n(10), n(3), true, true, &u8_ty()), Some((U256::new(1), true)));
    assert_eq!(binary_operation_max(&Operation::Mod, n(10), n(0), true, true, &u8_ty()), None);
    assert_eq!(binary_operation_max(&Operation::Mod, n(2), n(7), false, true, &u8_ty()), Some((U256::new(2), false)));
    assert_eq!(binary_operation_max(&Operation::Mod, n(2), n(7), true, false, &u8_ty()), Some((U256::new(2), false)));
    assert_eq!(binary_operation_max(&Operation::Mod, n(10), n(3), false, false, &u8_ty()), Some((U256::new(2), false)));
    assert_eq!(binary_operation_max(&Operation::Mod, n(10), n(0), false, false, &u8_ty()), None);
    assert_eq!(
        binary_operation_max(
            &Operation::Mod,
            Some(U256::from_words(1, 5)),
            Some(U256::from_words(1, 0)),
            true,
            true,
            &u256_ty()
        ),
        Some((U256::new(5), true))
    );
}

#[test]
fn quotient_and_right_shift_keep_the_left_bound() {
    assert_eq!(binary_operation_max(&Operation::Div, n(10), n(3), true, true, &u8_ty()), Some((U256::new(10), true)));
    assert_eq!(binary_operation_max(&Operation::Div, n(10), n(0), true, false, &u8_ty()), Some((U256::new(10), false)));
    assert_eq!(binary_operation_max(&Operation::Shr, n(10), n(3), true, true, &u8_ty()), Some((U256::new(10), true)));
}

#[test]
fn left_shift_is_clipped_and_never_constant() {
    assert_eq!(binary_operation_max(&Operation::Shl, n(3), n(2), true, true, &u8_ty()), Some((U256::new(12), false)));
    assert_eq!(binary_operation_max(&Operation::Shl, n(255), n(1), true, true, &u8_ty()), Some((U256::new(255), false)));
    assert_eq!(binary_operation_max(&Operation::Shl, n(255), n(1), true, true, &u64_ty()), Some((U256::new(510), false)));
    assert_eq!(
        binary_operation_max(&Operation::Shl, n(1), n(128), true, true, &u256_ty()),
        Some((U256::from_words(1, 0), false))
    );
    assert_eq!(
        binary_operation_max(&Operation::Shl, n(1), n(256), true, true, &u256_ty()),
        Some((U256::new(1), false))
    );
    assert_eq!(
        binary_operation_max(&Operation::Shl, n(3), n(255), true, true, &u256_ty()),
        Some((U256::from_words(1 << 127, 0), false))
    );
}

#[test]
fn bound_needs_both_operands() {
    assert_eq!(binary_operation_max(&Operation::Add, None, n(1), true, true, &u8_ty()), None);
    assert_eq!(binary_operation_max(&Operation::Add, n(1), None, true, true, &u8_ty()), None);
}

#[test]
fn names_are_sorted_by_code_point_and_kept_once() {
    assert_eq!(sort_dedup(&texts(&["b", "a", "b", "c", "a"])), texts(&["a", "b", "c"]));
    assert_eq!(sort_dedup(&texts(&["ab", "a", "B", "", "aa"])), texts(&["", "B", "a", "aa", "ab"]));
    assert_eq!(sort_dedup(&texts(&[])), texts(&[]));
    assert_eq!(sort_dedup(&texts(&["z", "é", "a"])), texts(&["a", "z", "é"]));
}

#[test]
fn insertion_keeps_the_order() {
    assert_eq!(insert_sorted(texts(&["a", "c"]), "b".to_string()), texts(&["a", "b", "c"]));
    assert_eq!(insert_sorted(texts(&["a", "c"]), "c".to_string()), texts(&["a", "c"]));
    assert_eq!(insert_sorted(texts(&["a", "c"]), "d".to_string()), texts(&["a", "c", "d"]));
    assert_eq!(insert_sorted(texts(&[]), "d".to_string()), texts(&["d"]));
}

#[test]
fn names_are_joined_with_a_separator() {
    assert_eq!(join(&texts(&["a", "b", "c"]), ","), "a,b,c");
    assert_eq!(join(&texts(&["a"]), ","), "a");
    assert_eq!(join(&texts(&[]), ","), "");
    assert_eq!(join(&texts(&["a", "b"]), "->"), "a->b");
}

#[test]
fn values_are_shown_with_their_variant() {
    assert_eq!(debug_string(&MoveValue::Bool(true)), "Bool(true)");
    assert_eq!(debug_string(&MoveValue::Bool(false)), "Bool(false)");
    assert_eq!(debug_string(&MoveValue::U8(0)), "U8(0)");
    assert_eq!(debug_string(&MoveValue::U8(255)), "U8(255)");
    assert_eq!(debug_string(&MoveValue::U16(65535)), "U16(65535)");
    assert_eq!(debug_string(&MoveValue::U32(100000)), "U32(100000)");
    assert_eq!(debug_string(&MoveValue::U64(u64::MAX)), "U64(18446744073709551615)");
    assert_eq!(
        debug_string(&MoveValue::U128(u128::MAX)),
        "U128(340282366920938463463374607431768211455)"
    );
    assert_eq!(
        debug_string(&MoveValue::U256(U256::from_words(1, 0))),
        "U256(340282366920938463463374607431768211456)"
    );
    assert_eq!(
        debug_string(&MoveValue::Address(U256::new(0xab))),
        "Address(00000000000000000000000000000000000000000000000000000000000000AB)"
    );
    assert_eq!(
        debug_string(&MoveValue::Signer(U256::from_words(0xf << 124, 1))),
        "Signer(F000000000000000000000000000000000000000000000000000000000000001)"
    );
    assert_eq!(
        debug_string(&MoveValue::Vector(vec![MoveValue::U8(1), MoveValue::U8(2)])),
        "Vector([U8(1), U8(2)])"
    );
    assert_eq!(debug_string(&MoveValue::Vector(vec![])), "Vector([])");
    assert_eq!(
        debug_string(&MoveValue::Struct(vec![MoveValue::Bool(true)])),
        "Struct([Bool(true)])"
    );
}

#[test]
fn visibility_is_written_before_fun() {
    assert_eq!(visibility_str(&Visibility::Public), "public ");
    assert_eq!(visibility_str(&Visibility::Friend), "public(friend) ");
    assert_eq!(visibility_str(&Visibility::Private), "");
}
