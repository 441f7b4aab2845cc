use revive_newyork::codegen::{then_region_aborts, CodegenError};
use revive_newyork::dce::eliminate_dead_code_in_stmts;
use revive_newyork::dedup::deduplicate_functions;
use revive_newyork::fuzzy_dedup::deduplicate_functions_fuzzy;
use revive_newyork::ir_facts::{
    count_constant_mstore_patterns, count_mapping_operations, extract_validator_mask,
    find_dead_callvalue_ids, is_revert_zero_region,
};
use revive_newyork::fold::{
    fold_binary, fold_keccak256_single, fold_ternary, fold_unary, log2_exact, max_u256,
    simplify_binary,
};
use revive_newyork::ir::{
    BinaryOperation, BitWidth, Block, DataSection, Expression, Function, FunctionId,
    MemoryRegion, Object, Region, Statement, SwitchCase, Type, UnaryOperation, Value, ValueId,
};
use revive_newyork::keccak_fold::fold_constant_keccak;
use revive_newyork::operands::find_max_value_id;
use revive_newyork::outline::{
    find_custom_error_pattern_backwards, find_panic_pattern_backwards, outline_custom_error_patterns,
    outline_panic_patterns,
};
use revive_newyork::simplify::Simplifier;
use revive_newyork::ssa::SsaBuilder;
use revive_newyork::type_inference::{TypeConstraint, TypeInference};
use revive_newyork::uint::Uint;
use revive_newyork::validate::{validate_object, ValidationError};
use std::collections::{BTreeMap, BTreeSet};

fn word(v: u64) -> Uint {
    Uint::from_u64(v)
}

fn make_let_literal(id: u32, value: u64) -> Statement {
    Statement::Let {
        bindings: vec![ValueId(id)],
        value: Expression::Literal {
            value: Uint::from_u64(value),
            value_type: Type::Int(BitWidth::I256),
        },
    }
}

fn make_let_binop(id: u32, operation: BinaryOperation, lhs_id: u32, rhs_id: u32) -> Statement {
    Statement::Let {
        bindings: vec![ValueId(id)],
        value: Expression::Binary {
            operation,
            lhs: Value::word(ValueId(lhs_id)),
            rhs: Value::word(ValueId(rhs_id)),
        },
    }
}

fn find_let(statements: &[Statement], id: u32) -> Option<&Expression> {
    statements.iter().find_map(|s| match s {
        Statement::Let { bindings, value } if bindings.contains(&ValueId(id)) => Some(value),
        _ => None,
    })
}

fn empty_object(statements: Vec<Statement>) -> Object {
    Object {
        name: "Test".to_string(),
        code: Block { statements },
        functions: Vec::new(),
        subobjects: Vec::new(),
        data: Vec::new(),
    }
}

fn int_value(id: u32) -> Value {
    Value::word(ValueId(id))
}

// ---------------------------------------------------------------------------
// Constant folding.

#[test]
fn test_constant_fold_add() {
    let result = fold_binary(BinaryOperation::Add, &word(100), &word(200));
    assert_eq!(result, Some(word(300)));
}

#[test]
fn test_constant_fold_sub_wrap() {
    let result = fold_binary(BinaryOperation::Sub, &word(0), &word(1));
    assert_eq!(result, Some(max_u256()));
}

#[test]
fn test_constant_fold_mul() {
    let result = fold_binary(BinaryOperation::Mul, &word(7), &word(6));
    assert_eq!(result, Some(word(42)));
}

#[test]
fn test_constant_fold_div_by_zero() {
    let result = fold_binary(BinaryOperation::Div, &word(100), &Uint::zero());
    assert_eq!(result, Some(Uint::zero()));
}

#[test]
fn test_constant_fold_comparisons() {
    assert_eq!(fold_binary(BinaryOperation::Lt, &word(5), &word(10)), Some(word(1)));
    assert_eq!(fold_binary(BinaryOperation::Lt, &word(10), &word(5)), Some(Uint::zero()));
    assert_eq!(fold_binary(BinaryOperation::Eq, &word(42), &word(42)), Some(word(1)));
}

#[test]
fn test_constant_fold_bitwise() {
    assert_eq!(
        fold_binary(BinaryOperation::And, &word(0xFF00), &word(0x0FF0)),
        Some(word(0x0F00))
    );
    assert_eq!(
        fold_binary(BinaryOperation::Or, &word(0xFF00), &word(0x00FF)),
        Some(word(0xFFFF))
    );
}

#[test]
fn test_constant_fold_shifts() {
    assert_eq!(fold_binary(BinaryOperation::Shl, &word(8), &word(1)), Some(word(256)));
    assert_eq!(fold_binary(BinaryOperation::Shr, &word(4), &word(256)), Some(word(16)));
}

#[test]
fn test_unary_fold() {
    assert_eq!(fold_unary(UnaryOperation::IsZero, &Uint::zero()), Some(word(1)));
    assert_eq!(fold_unary(UnaryOperation::IsZero, &word(42)), Some(Uint::zero()));
    assert_eq!(fold_unary(UnaryOperation::Not, &Uint::zero()), Some(max_u256()));
}

#[test]
fn test_ternary_fold() {
    let result = fold_ternary(BinaryOperation::AddMod, &word(10), &word(20), &word(7));
    assert_eq!(result, Some(word(2)));

    let result = fold_ternary(BinaryOperation::MulMod, &word(5), &word(7), &word(6));
    assert_eq!(result, Some(word(5)));

    let result = fold_ternary(BinaryOperation::AddMod, &word(10), &word(20), &Uint::zero());
    assert_eq!(result, Some(Uint::zero()));
}

#[test]
fn test_exp_fold() {
    let result = fold_binary(BinaryOperation::Exp, &word(2), &word(10));
    assert_eq!(result, Some(word(1024)));
}

#[test]
fn test_byte_fold() {
    let result = fold_binary(BinaryOperation::Byte, &word(31), &word(0xFF));
    assert_eq!(result, Some(word(0xFF)));

    let result = fold_binary(BinaryOperation::Byte, &word(0), &word(0xFF));
    assert_eq!(result, Some(Uint::zero()));
}

#[test]
fn fold_signed_operations() {
    let minus_one = max_u256();
    let minus_two = fold_binary(BinaryOperation::Sub, &Uint::zero(), &word(2)).unwrap();
    // sdiv(-2, -1) = 2, smod(-2, 3) = -2, sar(1, -2) = -1.
    assert_eq!(fold_binary(BinaryOperation::SDiv, &minus_two, &minus_one), Some(word(2)));
    assert_eq!(fold_binary(BinaryOperation::SMod, &minus_two, &word(3)), Some(minus_two.clone()));
    assert_eq!(fold_binary(BinaryOperation::Sar, &word(1), &minus_two), Some(minus_one.clone()));
    assert_eq!(fold_binary(BinaryOperation::Slt, &minus_one, &word(0)), Some(word(1)));
    assert_eq!(fold_binary(BinaryOperation::Sgt, &minus_one, &word(0)), Some(Uint::zero()));
    // signextend(0, 0xff) = -1.
    assert_eq!(fold_binary(BinaryOperation::SignExtend, &word(0), &word(0xff)), Some(minus_one));
    // Three-operand operations are not folded as binary ones.
    assert_eq!(fold_binary(BinaryOperation::AddMod, &word(1), &word(2)), None);
}

#[test]
fn fold_shift_out_of_range_is_zero() {
    assert_eq!(fold_binary(BinaryOperation::Shl, &word(256), &word(1)), Some(Uint::zero()));
    assert_eq!(fold_binary(BinaryOperation::Shr, &word(300), &word(1)), Some(Uint::zero()));
    assert_eq!(fold_binary(BinaryOperation::Mod, &word(7), &Uint::zero()), Some(Uint::zero()));
}

#[test]
fn fold_clz() {
    assert_eq!(fold_unary(UnaryOperation::Clz, &Uint::zero()), Some(word(256)));
    assert_eq!(fold_unary(UnaryOperation::Clz, &word(1)), Some(word(255)));
}

#[test]
fn log2_exact_recognises_powers_of_two() {
    assert_eq!(log2_exact(&word(1024)), Some(10));
    assert_eq!(log2_exact(&word(1)), Some(0));
    assert_eq!(log2_exact(&word(12)), None);
    assert_eq!(log2_exact(&Uint::zero()), None);
}

#[test]
fn keccak_of_zero_word() {
    // keccak256 of 32 zero bytes.
    let digest = fold_keccak256_single(&Uint::zero());
    let expected_high = word(0x290decd9548b62a8);
    let shifted = expected_high.shl(192);
    let top = fold_binary(BinaryOperation::Shr, &word(192), &digest).unwrap();
    assert_eq!(top.shl(192), shifted);
    assert!(digest != Uint::zero());
}

#[test]
fn algebraic_identities() {
    let x = int_value(5);
    let y = int_value(6);
    let zero = Some(Uint::zero());
    let one = Some(word(1));
    assert!(matches!(
        simplify_binary(BinaryOperation::Add, &x, &y, &None, &zero),
        Some(Expression::Var(ValueId(5)))
    ));
    assert!(matches!(
        simplify_binary(BinaryOperation::Mul, &x, &y, &None, &one),
        Some(Expression::Var(ValueId(5)))
    ));
    match simplify_binary(BinaryOperation::Xor, &x, &x, &None, &None) {
        Some(Expression::Literal { value, .. }) => assert_eq!(value, Uint::zero()),
        other => panic!("expected zero, got {other:?}"),
    }
    // div(x, x) is folded only for a known nonzero x: div(0, 0) is 0 on the EVM.
    assert!(simplify_binary(BinaryOperation::Div, &x, &x, &None, &None).is_none());
    assert!(simplify_binary(BinaryOperation::Add, &x, &y, &None, &None).is_none());
}

// ---------------------------------------------------------------------------
// The simplifier.

#[test]
fn test_simplifier_constant_propagation() {
    let mut simplifier = Simplifier::new();
    let statements = vec![
        make_let_literal(1, 10),
        make_let_literal(2, 20),
        make_let_binop(3, BinaryOperation::Add, 1, 2),
        Statement::Return { offset: int_value(3), length: int_value(3) },
    ];
    let block = &mut Block { statements };
    simplifier.simplify_block(block);
    let value = find_let(&block.statements, 3).expect("v3 should still exist");
    if let Expression::Literal { value, .. } = value {
        assert_eq!(*value, Uint::from_u64(30));
    } else {
        panic!("Expected literal after constant folding, got: {value:?}");
    }
}

#[test]
fn test_simplifier_algebraic_identity_add_zero() {
    let mut simplifier = Simplifier::new();
    let statements = vec![
        make_let_literal(1, 0),
        Statement::Let {
            bindings: vec![ValueId(2)],
            value: Expression::Binary {
                operation: BinaryOperation::Add,
                lhs: int_value(99),
                rhs: int_value(1),
            },
        },
        Statement::Return { offset: int_value(2), length: int_value(2) },
    ];
    let block = &mut Block { statements };
    simplifier.simplify_block(block);
    let value = find_let(&block.statements, 2).expect("v2 should still exist");
    match value {
        Expression::Var(id) => assert_eq!(id.0, 99),
        _ => panic!("Expected Var after algebraic simplification, got: {value:?}"),
    }
    assert!(simplifier.statistics().identities_simplified > 0);
}

#[test]
fn test_no_crash_on_unused_bindings() {
    let mut simplifier = Simplifier::new();
    let statements = vec![
        make_let_literal(1, 42),
        make_let_literal(2, 100),
        Statement::Return { offset: int_value(2), length: int_value(2) },
    ];
    let block = &mut Block { statements };
    simplifier.simplify_block(block);
    assert_eq!(block.statements.len(), 3);
}

#[test]
fn test_copy_propagation() {
    let mut simplifier = Simplifier::new();
    let statements = vec![
        make_let_literal(1, 42),
        Statement::Let { bindings: vec![ValueId(2)], value: Expression::Var(ValueId(1)) },
        Statement::Return { offset: int_value(2), length: int_value(2) },
    ];
    let block = &mut Block { statements };
    simplifier.simplify_block(block);
    if let Statement::Return { offset, .. } = &block.statements[block.statements.len() - 1] {
        assert!(offset.id.0 == 1 || matches!(block.statements.last(), Some(Statement::Return { .. })));
    }
}

#[test]
fn copies_resolve_to_their_source() {
    let mut simplifier = Simplifier::new();
    let statements = vec![
        Statement::Let { bindings: vec![ValueId(2)], value: Expression::Var(ValueId(1)) },
        Statement::Let { bindings: vec![ValueId(3)], value: Expression::Var(ValueId(2)) },
        Statement::Return { offset: int_value(3), length: int_value(2) },
    ];
    let block = &mut Block { statements };
    simplifier.simplify_block(block);
    match find_let(&block.statements, 3) {
        Some(Expression::Var(ValueId(1))) => {},
        other => panic!("expected a copy of v1, got {other:?}"),
    }
    match block.statements.last() {
        Some(Statement::Return { offset, length }) => {
            assert_eq!(offset.id, ValueId(1));
            assert_eq!(length.id, ValueId(1));
        },
        other => panic!("expected return, got {other:?}"),
    }
}

#[test]
fn add_sub_cancel_through_definition() {
    let mut simplifier = Simplifier::new();
    let statements = vec![
        make_let_binop(3, BinaryOperation::Add, 1, 2),
        make_let_binop(4, BinaryOperation::Sub, 3, 1),
        Statement::Return { offset: int_value(4), length: int_value(4) },
    ];
    let block = &mut Block { statements };
    simplifier.simplify_block(block);
    match find_let(&block.statements, 4) {
        Some(Expression::Var(ValueId(2))) => {},
        other => panic!("expected v2, got {other:?}"),
    }
}

#[test]
fn double_not_cancels() {
    let mut simplifier = Simplifier::new();
    let statements = vec![
        Statement::Let {
            bindings: vec![ValueId(2)],
            value: Expression::Unary { operation: UnaryOperation::Not, operand: int_value(1) },
        },
        Statement::Let {
            bindings: vec![ValueId(3)],
            value: Expression::Unary { operation: UnaryOperation::Not, operand: int_value(2) },
        },
        Statement::Return { offset: int_value(3), length: int_value(3) },
    ];
    let block = &mut Block { statements };
    simplifier.simplify_block(block);
    match find_let(&block.statements, 3) {
        Some(Expression::Var(ValueId(1))) => {},
        other => panic!("expected v1, got {other:?}"),
    }
}

#[test]
fn environment_reads_are_shared() {
    let mut simplifier = Simplifier::new();
    let statements = vec![
        Statement::Let { bindings: vec![ValueId(1)], value: Expression::Caller },
        Statement::Let { bindings: vec![ValueId(2)], value: Expression::Caller },
        Statement::Let { bindings: vec![ValueId(3)], value: Expression::Gas },
        Statement::Let { bindings: vec![ValueId(4)], value: Expression::Gas },
        Statement::Return { offset: int_value(2), length: int_value(4) },
    ];
    let block = &mut Block { statements };
    simplifier.simplify_block(block);
    assert!(matches!(find_let(&block.statements, 2), Some(Expression::Var(ValueId(1)))));
    // Gas changes as the code runs: it is read again.
    assert!(matches!(find_let(&block.statements, 4), Some(Expression::Gas)));
    assert_eq!(simplifier.statistics().env_reads_eliminated, 1);
}

#[test]
fn strength_reduction_of_multiplication() {
    let mut simplifier = Simplifier::new();
    let mut object = empty_object(vec![
        make_let_literal(1, 8),
        make_let_binop(3, BinaryOperation::Mul, 2, 1),
        Statement::Return { offset: int_value(3), length: int_value(3) },
    ]);
    simplifier.simplify_object(&mut object);
    // mul(x, 8) becomes shl(3, x) through a fresh helper bound to 3.
    match find_let(&object.code.statements, 3) {
        Some(Expression::Binary { operation: BinaryOperation::Shl, lhs, rhs }) => {
            assert_eq!(rhs.id, ValueId(2));
            assert_eq!(lhs.id, ValueId(4));
            match find_let(&object.code.statements, 4) {
                Some(Expression::Literal { value, .. }) => assert_eq!(*value, word(3)),
                other => panic!("expected the shift amount, got {other:?}"),
            }
        },
        other => panic!("expected shl, got {other:?}"),
    }
}

#[test]
fn constant_if_is_inlined() {
    let mut simplifier = Simplifier::new();
    let statements = vec![
        make_let_literal(1, 1),
        Statement::If {
            condition: int_value(1),
            inputs: vec![],
            then_region: Region { statements: vec![make_let_literal(2, 7)], yields: vec![int_value(2)] },
            else_region: None,
            outputs: vec![ValueId(3)],
        },
        Statement::Return { offset: int_value(3), length: int_value(3) },
    ];
    let block = &mut Block { statements };
    simplifier.simplify_block(block);
    assert!(!block.statements.iter().any(|s| matches!(s, Statement::If { .. })));
    assert!(matches!(find_let(&block.statements, 3), Some(Expression::Var(ValueId(2)))));
    assert_eq!(simplifier.statistics().branches_eliminated, 1);
}

#[test]
fn constant_switch_takes_matching_case() {
    let mut simplifier = Simplifier::new();
    let statements = vec![
        make_let_literal(1, 2),
        Statement::Switch {
            scrutinee: int_value(1),
            inputs: vec![],
            cases: vec![
                SwitchCase { value: word(1), body: Region { statements: vec![Statement::Stop], yields: vec![] } },
                SwitchCase { value: word(2), body: Region { statements: vec![Statement::Invalid], yields: vec![] } },
            ],
            default: None,
            outputs: vec![],
        },
    ];
    let block = &mut Block { statements };
    simplifier.simplify_block(block);
    assert!(matches!(block.statements.last(), Some(Statement::Invalid)));
}

#[test]
fn memory_region_from_constant_offset() {
    let mut simplifier = Simplifier::new();
    let statements = vec![
        make_let_literal(1, 0x40),
        Statement::MStore { offset: int_value(1), value: int_value(2), region: MemoryRegion::Unknown },
    ];
    let block = &mut Block { statements };
    simplifier.simplify_block(block);
    assert!(matches!(
        block.statements.last(),
        Some(Statement::MStore { region: MemoryRegion::FreePointerSlot, .. })
    ));
}

fn mstore(offset: u32, value: u32) -> Statement {
    Statement::MStore { offset: int_value(offset), value: int_value(value), region: MemoryRegion::Scratch }
}

fn panic_constants() -> BTreeMap<u32, Uint> {
    let panic_word = word(0x4e487b71).shl(224);
    let mut constants: BTreeMap<u32, Uint> = BTreeMap::new();
    constants.insert(0, Uint::zero());
    constants.insert(1, panic_word);
    constants.insert(2, word(4));
    constants.insert(3, word(0x11));
    constants.insert(4, word(0xdeadbeef));
    constants.insert(5, word(0x100));
    constants
}

#[test]
fn panic_pattern_respects_last_write_wins() {
    let constants = panic_constants();
    assert_eq!(find_panic_pattern_backwards(&vec![mstore(0, 1), mstore(2, 3)], &constants), Some((0, 0x11)));
    assert_eq!(
        find_panic_pattern_backwards(&vec![mstore(0, 1), mstore(2, 3), mstore(0, 4)], &constants),
        None
    );
    assert_eq!(
        find_panic_pattern_backwards(&vec![mstore(0, 1), mstore(2, 3), mstore(2, 5)], &constants),
        None
    );
}

#[test]
fn panic_revert_is_outlined() {
    let mut constants = panic_constants();
    constants.insert(6, word(0x24));
    let statements = vec![
        mstore(0, 1),
        mstore(2, 3),
        Statement::Revert { offset: int_value(0), length: int_value(6) },
    ];
    let out = outline_panic_patterns(statements, &constants, &BTreeSet::new());
    assert_eq!(out.len(), 1);
    assert!(matches!(out[0], Statement::PanicRevert { code: 0x11 }));
}

#[test]
fn custom_error_window_is_found() {
    let mut constants = panic_constants();
    constants.insert(7, word(0x12345678).shl(224));
    let statements = vec![mstore(0, 7), mstore(2, 9)];
    match find_custom_error_pattern_backwards(&statements, &constants, 1) {
        Some((start, selector, arguments)) => {
            assert_eq!(start, 0);
            assert_eq!(selector, word(0x12345678).shl(224));
            assert_eq!(arguments, vec![int_value(9)]);
        },
        None => panic!("expected a custom error window"),
    }
    // A second store to the selector offset means the payload is not canonical.
    let statements = vec![mstore(0, 7), mstore(2, 9), mstore(0, 4)];
    assert!(find_custom_error_pattern_backwards(&statements, &constants, 1).is_none());
}

#[test]
fn custom_error_revert_is_outlined_keeping_bindings() {
    let mut constants = panic_constants();
    constants.insert(7, word(0x12345678).shl(224));
    constants.insert(8, word(0x24));
    let statements = vec![
        mstore(0, 7),
        make_let_literal(20, 5),
        mstore(2, 9),
        Statement::Revert { offset: int_value(0), length: int_value(8) },
    ];
    let out = outline_custom_error_patterns(statements, &constants);
    assert_eq!(out.len(), 2);
    assert!(matches!(&out[0], Statement::Let { bindings, .. } if bindings.len() == 1 && bindings[0].0 == 20));
    match &out[1] {
        Statement::CustomErrorRevert { selector, arguments } => {
            assert_eq!(*selector, word(0x12345678).shl(224));
            assert_eq!(*arguments, vec![int_value(9)]);
        },
        _ => panic!("expected a custom error revert"),
    }
    // A revert whose length fits no custom error stays as it is.
    constants.insert(8, word(0x25));
    let statements = vec![mstore(0, 7), mstore(2, 9), Statement::Revert { offset: int_value(0), length: int_value(8) }];
    let out = outline_custom_error_patterns(statements, &constants);
    assert_eq!(out.len(), 3);
}

#[test]
fn panic_outline_rebinds_names_still_in_use() {
    let mut constants = panic_constants();
    constants.insert(6, word(0x24));
    let statements = vec![
        mstore(0, 1),
        make_let_literal(30, 5),
        mstore(2, 3),
        Statement::Revert { offset: int_value(0), length: int_value(6) },
    ];
    let mut used = BTreeSet::new();
    used.insert(30u32);
    let out = outline_panic_patterns(statements, &constants, &used);
    assert_eq!(out.len(), 2);
    match &out[0] {
        Statement::Let { bindings, value: Expression::Literal { value, .. } } => {
            assert_eq!(bindings.len(), 1);
            assert_eq!(bindings[0].0, 30);
            assert_eq!(*value, Uint::zero());
        },
        _ => panic!("expected a zero binding"),
    }
    assert!(matches!(out[1], Statement::PanicRevert { code: 0x11 }));
}

#[test]
fn dead_code_elimination_removes_unused_pure_bindings() {
    let mut statements = vec![
        make_let_literal(1, 1),
        make_let_literal(2, 2),
        make_let_binop(3, BinaryOperation::Add, 1, 1),
        Statement::Return { offset: int_value(2), length: int_value(2) },
        make_let_literal(9, 9),
    ];
    let removed = eliminate_dead_code_in_stmts(&mut statements, &BTreeSet::new());
    // v9 is unreachable; v3 is unused, and then v1 is too.
    assert_eq!(removed, 3);
    assert_eq!(statements.len(), 2);
    assert!(find_let(&statements, 2).is_some());
}

#[test]
fn dead_code_elimination_rescues_kept_values() {
    let mut statements = vec![Statement::Stop, make_let_literal(5, 7)];
    let mut keep = BTreeSet::new();
    keep.insert(5u32);
    eliminate_dead_code_in_stmts(&mut statements, &keep);
    assert_eq!(statements.len(), 2);
    match &statements[0] {
        Statement::Let { bindings, value: Expression::Literal { value, .. } } => {
            assert_eq!(bindings, &vec![ValueId(5)]);
            assert_eq!(*value, Uint::zero());
        },
        other => panic!("expected a zero binding, got {other:?}"),
    }
    assert!(matches!(statements[1], Statement::Stop));
}

#[test]
fn max_value_id_covers_code_and_functions() {
    let mut object = empty_object(vec![make_let_binop(3, BinaryOperation::Add, 1, 2)]);
    object.functions.push(Function {
        id: FunctionId(0),
        name: "f".to_string(),
        parameters: vec![(ValueId(40), Type::Int(BitWidth::I256))],
        returns: vec![],
        return_values_initial: vec![],
        return_values: vec![],
        body: Block { statements: vec![] },
        call_count: 0,
        size_estimate: 0,
    });
    assert_eq!(find_max_value_id(&object), 40);
}

// ---------------------------------------------------------------------------
// Keccak folding and deduplication.

#[test]
fn keccak_of_constant_word_is_folded() {
    let mut object = empty_object(vec![
        make_let_literal(1, 0),
        Statement::Let {
            bindings: vec![ValueId(2)],
            value: Expression::Keccak256Single { word0: int_value(1) },
        },
    ]);
    fold_constant_keccak(&mut object);
    match find_let(&object.code.statements, 2) {
        Some(Expression::Literal { value, .. }) => assert_eq!(*value, fold_keccak256_single(&Uint::zero())),
        other => panic!("expected a folded hash, got {other:?}"),
    }
}

fn small_function(id: u32, base: u32) -> Function {
    Function {
        id: FunctionId(id),
        name: format!("f{id}"),
        parameters: vec![(ValueId(base), Type::Int(BitWidth::I256))],
        returns: vec![Type::Int(BitWidth::I256)],
        return_values_initial: vec![ValueId(base + 1)],
        return_values: vec![ValueId(base + 5)],
        body: Block {
            statements: vec![
                make_let_literal(base + 2, 1),
                make_let_binop(base + 3, BinaryOperation::Add, base, base + 2),
                make_let_binop(base + 4, BinaryOperation::Mul, base + 3, base + 3),
                make_let_binop(base + 5, BinaryOperation::Sub, base + 4, base),
            ],
        },
        call_count: 1,
        size_estimate: 4,
    }
}

#[test]
fn identical_functions_are_deduplicated() {
    let mut object = empty_object(vec![
        Statement::Expression(Expression::Call { function: FunctionId(1), arguments: vec![int_value(100)] }),
    ]);
    object.functions.push(small_function(0, 10));
    object.functions.push(small_function(1, 20));
    let removed = deduplicate_functions(&mut object);
    assert_eq!(removed, 1);
    assert_eq!(object.functions.len(), 1);
    assert!(matches!(
        &object.code.statements[0],
        Statement::Expression(Expression::Call { function: FunctionId(0), .. })
    ));
}

// ---------------------------------------------------------------------------
// SSA construction.

#[test]
fn test_fresh_values() {
    let mut builder = SsaBuilder::new();
    let v0 = builder.fresh_id();
    let v1 = builder.fresh_id();
    assert_eq!(v0.0, 0);
    assert_eq!(v1.0, 1);
}

#[test]
fn test_declare_and_lookup() {
    let mut builder = SsaBuilder::new();
    let v = builder.fresh_typed_value(Type::Int(BitWidth::I256));
    builder.declare("x", v);
    assert_eq!(builder.lookup("x"), Some(v));
    assert_eq!(builder.lookup("y"), None);
}

#[test]
fn test_nested_scopes() {
    let mut builder = SsaBuilder::new();
    let v0 = builder.fresh_typed_value(Type::Int(BitWidth::I256));
    builder.declare("x", v0);

    builder.enter_scope();
    let v1 = builder.fresh_typed_value(Type::Int(BitWidth::I256));
    builder.assign("x", v1);
    assert_eq!(builder.lookup("x"), Some(v1));

    builder.exit_scope();
    assert_eq!(builder.lookup("x"), Some(v0));
}

#[test]
fn peek_does_not_allocate() {
    let mut builder = SsaBuilder::new();
    assert_eq!(builder.peek_next_id(), ValueId(0));
    let v = builder.fresh_id();
    assert_eq!(v, ValueId(0));
    assert_eq!(builder.peek_next_id(), ValueId(1));
}

// ---------------------------------------------------------------------------
// Code generation helpers.

fn region(statements: Vec<Statement>) -> Region {
    Region { statements, yields: vec![] }
}

fn call(function: u32) -> Statement {
    Statement::Expression(Expression::Call { function: FunctionId(function), arguments: vec![] })
}

fn revert() -> Statement {
    Statement::Revert { offset: Value::word(ValueId(0)), length: Value::word(ValueId(0)) }
}

#[test]
fn explicit_terminator_aborts() {
    let noreturn = BTreeSet::new();
    assert!(then_region_aborts(&region(vec![revert()]), &noreturn));
    assert!(then_region_aborts(&region(vec![Statement::Invalid]), &noreturn));
}

#[test]
fn trailing_call_aborts_only_when_noreturn() {
    let none: BTreeSet<u32> = BTreeSet::new();
    assert!(!then_region_aborts(&region(vec![call(7)]), &none));

    let noreturn: BTreeSet<u32> = [7u32].into_iter().collect();
    assert!(then_region_aborts(&region(vec![call(7)]), &noreturn));
}

#[test]
fn returning_call_after_lets_does_not_abort() {
    let none: BTreeSet<u32> = BTreeSet::new();
    let statements = vec![
        Statement::Let { bindings: vec![ValueId(1)], value: Expression::CallValue },
        call(7),
    ];
    assert!(!then_region_aborts(&region(statements), &none));
}

#[test]
fn codegen_error_messages() {
    assert_eq!(CodegenError::UndefinedValue(ValueId(3)).message(), "Undefined value: ValueId(3)");
    assert_eq!(
        CodegenError::UndefinedFunction(FunctionId(4)).message(),
        "Undefined function: FunctionId(4)"
    );
    assert_eq!(
        CodegenError::TypeMismatch { expected: "i64".to_string(), actual: "i1".to_string() }.message(),
        "Type mismatch: expected i64, got i1"
    );
}

// ---------------------------------------------------------------------------
// Type inference.

#[test]
fn test_literal_width_inference() {
    let mut inference = TypeInference::new();

    let expression = Expression::Literal { value: word(42), value_type: Type::word() };
    let width = inference.infer_expression_width(&expression);
    assert_eq!(width, BitWidth::I8);

    let expression = Expression::Literal { value: word(1).shl(100), value_type: Type::word() };
    let width = inference.infer_expression_width(&expression);
    assert_eq!(width, BitWidth::I128);

    let expression = Expression::Literal { value: word(1).shl(140), value_type: Type::word() };
    let width = inference.infer_expression_width(&expression);
    assert_eq!(width, BitWidth::I160);
}

#[test]
fn test_comparison_returns_boolean() {
    let mut inference = TypeInference::new();

    inference.widen(ValueId(0), BitWidth::I64);
    inference.widen(ValueId(1), BitWidth::I64);

    let expression = Expression::Binary {
        operation: BinaryOperation::Lt,
        lhs: Value::new(ValueId(0), Type::Int(BitWidth::I64)),
        rhs: Value::new(ValueId(1), Type::Int(BitWidth::I64)),
    };
    let width = inference.infer_expression_width(&expression);
    assert_eq!(width, BitWidth::I1);
}

#[test]
fn test_constraint_join() {
    let c1 = TypeConstraint::with_width(BitWidth::I32);
    let c2 = TypeConstraint::signed(BitWidth::I64);
    let joined = c1.join(&c2);
    assert_eq!(joined.min_width, BitWidth::I64);
    assert!(joined.is_signed);
}

#[test]
fn widening_is_monotone() {
    let mut inference = TypeInference::new();
    assert!(inference.widen(ValueId(7), BitWidth::I64));
    assert!(!inference.widen(ValueId(7), BitWidth::I32));
    assert_eq!(inference.get(ValueId(7)).min_width, BitWidth::I64);
}

// ---------------------------------------------------------------------------
// Validation.

#[test]
fn test_valid_let() {
    let object = empty_object(vec![
        Statement::Let {
            bindings: vec![ValueId(0)],
            value: Expression::Literal { value: Uint::zero(), value_type: Type::Int(BitWidth::I256) },
        },
        Statement::Let { bindings: vec![ValueId(1)], value: Expression::Var(ValueId(0)) },
    ]);
    assert!(validate_object(&object).is_ok());
}

#[test]
fn test_use_before_def() {
    let object = empty_object(vec![Statement::Let {
        bindings: vec![ValueId(1)],
        value: Expression::Var(ValueId(0)),
    }]);
    let result = validate_object(&object);
    assert!(result.is_err());
    let errors = result.unwrap_err();
    assert!(errors.iter().any(|e| matches!(e, ValidationError::UseBeforeDef(0, _))));
}

#[test]
fn test_if_yield_mismatch() {
    let object = empty_object(vec![
        Statement::Let {
            bindings: vec![ValueId(0)],
            value: Expression::Literal { value: word(1), value_type: Type::Int(BitWidth::I256) },
        },
        Statement::If {
            condition: int_value(0),
            inputs: vec![],
            then_region: Region { statements: vec![], yields: vec![int_value(0)] },
            else_region: Some(Region { statements: vec![], yields: vec![] }),
            outputs: vec![ValueId(1)],
        },
    ]);
    let result = validate_object(&object);
    assert!(result.is_err());
    let errors = result.unwrap_err();
    assert!(errors.iter().any(|e| matches!(e, ValidationError::YieldCountMismatch { .. })));
}

#[test]
fn test_valid_function() {
    let mut object = empty_object(vec![]);
    object.functions.push(Function {
        id: FunctionId(0),
        name: "add_one".to_string(),
        parameters: vec![(ValueId(0), Type::Int(BitWidth::I256))],
        returns: vec![Type::Int(BitWidth::I256)],
        return_values_initial: vec![ValueId(1)],
        return_values: vec![ValueId(2)],
        body: Block {
            statements: vec![Statement::Let {
                bindings: vec![ValueId(2)],
                value: Expression::Binary {
                    operation: BinaryOperation::Add,
                    lhs: int_value(0),
                    rhs: int_value(1),
                },
            }],
        },
        call_count: 0,
        size_estimate: 0,
    });
    assert!(validate_object(&object).is_ok());
}

#[test]
fn test_function_return_count_mismatch() {
    let mut object = empty_object(vec![]);
    object.functions.push(Function {
        id: FunctionId(0),
        name: "bad".to_string(),
        parameters: vec![],
        returns: vec![Type::Int(BitWidth::I256), Type::Int(BitWidth::I256)],
        return_values_initial: vec![ValueId(0)],
        return_values: vec![ValueId(0)],
        body: Block { statements: vec![] },
        call_count: 0,
        size_estimate: 0,
    });
    let result = validate_object(&object);
    assert!(result.is_err());
    let errors = result.unwrap_err();
    assert!(errors.iter().any(|e| matches!(e, ValidationError::FunctionError(_))));
}

#[test]
fn data_sections_do_not_affect_validation() {
    let mut object = empty_object(vec![]);
    object.data.push(DataSection { name: "d".to_string(), bytes: vec![1, 2, 3] });
    assert!(validate_object(&object).is_ok());
}

fn literal_function(id: u32, base: u32, constant: u64) -> Function {
    let mut statements = vec![make_let_literal(base + 1, constant)];
    for k in 0..10u32 {
        statements.push(make_let_binop(base + 2 + k, BinaryOperation::Add, base, base + 1 + k));
    }
    Function {
        id: FunctionId(id),
        name: format!("g{id}"),
        parameters: vec![(ValueId(base), Type::Int(BitWidth::I256))],
        returns: vec![],
        return_values_initial: vec![],
        return_values: vec![],
        body: Block { statements },
        call_count: 1,
        size_estimate: 11,
    }
}

#[test]
fn functions_differing_in_literals_are_merged() {
    let mut object = empty_object(vec![Statement::Expression(Expression::Call {
        function: FunctionId(1),
        arguments: vec![int_value(500)],
    })]);
    object.functions.push(literal_function(0, 100, 5));
    object.functions.push(literal_function(1, 200, 7));
    let removed = deduplicate_functions_fuzzy(&mut object);
    assert_eq!(removed, 1);
    assert_eq!(object.functions.len(), 1);
    // The canonical function takes the differing literal as a new parameter.
    assert_eq!(object.functions[0].parameters.len(), 2);
    assert!(matches!(find_let(&object.functions[0].body.statements, 101), Some(Expression::Var(_))));
    // The call now passes 7, bound just before it.
    assert_eq!(object.code.statements.len(), 2);
    match &object.code.statements[0] {
        Statement::Let { value: Expression::Literal { value, value_type }, .. } => {
            assert_eq!(*value, word(7));
            assert_eq!(*value_type, Type::Int(BitWidth::I8));
        },
        other => panic!("expected the extra argument, got {other:?}"),
    }
    match &object.code.statements[1] {
        Statement::Expression(Expression::Call { function, arguments }) => {
            assert_eq!(*function, FunctionId(0));
            assert_eq!(arguments.len(), 2);
        },
        other => panic!("expected a call, got {other:?}"),
    }
}

#[test]
fn functions_with_equal_literals_are_left_to_exact_dedup() {
    let mut object = empty_object(vec![]);
    object.functions.push(literal_function(0, 100, 5));
    object.functions.push(literal_function(1, 200, 5));
    assert_eq!(deduplicate_functions_fuzzy(&mut object), 0);
    assert_eq!(object.functions.len(), 2);
}

// ---------------------------------------------------------------------------
// Facts for code generation.

#[test]
fn zero_revert_region() {
    let zero_revert = region(vec![
        make_let_literal(1, 0),
        make_let_literal(2, 0),
        Statement::Revert { offset: int_value(1), length: int_value(2) },
    ]);
    assert!(is_revert_zero_region(&zero_revert));
    let data_revert = region(vec![
        make_let_literal(1, 0),
        make_let_literal(2, 4),
        Statement::Revert { offset: int_value(1), length: int_value(2) },
    ]);
    assert!(!is_revert_zero_region(&data_revert));
    let outer_operands = region(vec![Statement::Revert { offset: int_value(1), length: int_value(2) }]);
    assert!(!is_revert_zero_region(&outer_operands));
    assert!(!is_revert_zero_region(&region(vec![make_let_literal(1, 0)])));
}

fn validator(mask_value: u64) -> Function {
    Function {
        id: FunctionId(3),
        name: "validator".to_string(),
        parameters: vec![(ValueId(0), Type::Int(BitWidth::I256))],
        returns: vec![],
        return_values_initial: vec![],
        return_values: vec![],
        body: Block {
            statements: vec![
                make_let_literal(1, mask_value),
                make_let_binop(2, BinaryOperation::And, 0, 1),
                make_let_binop(3, BinaryOperation::Eq, 0, 2),
                Statement::Let {
                    bindings: vec![ValueId(4)],
                    value: Expression::Unary { operation: UnaryOperation::IsZero, operand: int_value(3) },
                },
                Statement::If {
                    condition: int_value(4),
                    inputs: vec![],
                    then_region: region(vec![revert()]),
                    else_region: None,
                    outputs: vec![],
                },
            ],
        },
        call_count: 1,
        size_estimate: 5,
    }
}

#[test]
fn validator_mask_is_extracted() {
    let noreturn = BTreeSet::new();
    assert_eq!(extract_validator_mask(&validator(0xff), &noreturn), Some(word(0xff)));
    // 0xfe is not of the form 2^N - 1.
    assert_eq!(extract_validator_mask(&validator(0xfe), &noreturn), None);
}

#[test]
fn callvalue_used_only_as_condition_is_dead() {
    let object = empty_object(vec![
        Statement::Let { bindings: vec![ValueId(1)], value: Expression::CallValue },
        Statement::If {
            condition: int_value(1),
            inputs: vec![],
            then_region: region(vec![revert()]),
            else_region: None,
            outputs: vec![],
        },
        Statement::Let { bindings: vec![ValueId(2)], value: Expression::CallValue },
        mstore(0, 2),
    ]);
    let dead = find_dead_callvalue_ids(&object);
    assert!(dead.contains(&1));
    assert!(!dead.contains(&2));
    assert_eq!(dead.len(), 1);
}

#[test]
fn mapping_and_constant_store_counts() {
    let object = empty_object(vec![
        Statement::Let {
            bindings: vec![ValueId(1)],
            value: Expression::MappingSLoad { key: int_value(7), slot: int_value(8) },
        },
        Statement::MappingSStore { key: int_value(7), slot: int_value(8), value: int_value(1) },
        Statement::Block(region(vec![Statement::MappingSStore {
            key: int_value(7),
            slot: int_value(8),
            value: int_value(1),
        }])),
        make_let_literal(10, 0x20),
        Statement::Let {
            bindings: vec![ValueId(11)],
            value: Expression::Literal { value: word(0xa9059cbb).shl(224), value_type: Type::word() },
        },
        mstore(12, 10),
        mstore(12, 11),
        mstore(12, 1),
    ]);
    assert_eq!(count_mapping_operations(&object), (1, 2));
    assert_eq!(count_constant_mstore_patterns(&object), (1, 1));
}

#[test]
fn subobjects_number_their_values_apart() {
    let child = empty_object(vec![make_let_literal(0, 2)]);
    assert!(validate_object(&child).is_ok());
    let mut parent = empty_object(vec![make_let_literal(0, 1)]);
    parent.subobjects.push(child);
    assert!(validate_object(&parent).is_ok());
    // The subobject cannot see the parent's values either.
    let mut parent = empty_object(vec![make_let_literal(0, 1)]);
    parent.subobjects.push(empty_object(vec![Statement::Let {
        bindings: vec![ValueId(5)],
        value: Expression::Var(ValueId(0)),
    }]));
    assert!(validate_object(&parent).is_err());
}

fn revert_function(id: u32, data: Vec<Uint>) -> Function {
    Function {
        id: FunctionId(id),
        name: format!("r{id}"),
        parameters: Vec::new(),
        returns: Vec::new(),
        return_values_initial: Vec::new(),
        return_values: Vec::new(),
        body: Block { statements: vec![Statement::ErrorStringRevert { length: 3, data }] },
        call_count: 1,
        size_estimate: 4,
    }
}

#[test]
fn revert_payloads_split_differently_are_not_merged() {
    let mut object = empty_object(Vec::new());
    object.functions.push(revert_function(0, vec![word(1), word(0x0203)]));
    object.functions.push(revert_function(1, vec![word(0x0102), word(3)]));
    assert_eq!(deduplicate_functions(&mut object), 0);
    assert_eq!(object.functions.len(), 2);
    // Equal payloads still merge.
    let mut object = empty_object(Vec::new());
    object.functions.push(revert_function(0, vec![word(1), word(0x0203)]));
    object.functions.push(revert_function(1, vec![word(1), word(0x0203)]));
    assert_eq!(deduplicate_functions(&mut object), 1);
}

#[test]
fn parameter_kept_wide_only_by_comparisons_narrows_to_callers() {
    let mut object = empty_object(vec![
        make_let_literal(1, 5),
        Statement::Let {
            bindings: vec![ValueId(2)],
            value: Expression::Call { function: FunctionId(0), arguments: vec![int_value(1)] },
        },
    ]);
    object.functions.push(Function {
        id: FunctionId(0),
        name: "f0".to_string(),
        parameters: vec![(ValueId(10), Type::Int(BitWidth::I256))],
        returns: vec![Type::Int(BitWidth::I256)],
        return_values_initial: vec![ValueId(11)],
        return_values: vec![ValueId(13)],
        body: Block {
            statements: vec![make_let_literal(12, 100), make_let_binop(13, BinaryOperation::Lt, 10, 12)],
        },
        call_count: 1,
        size_estimate: 2,
    });
    let mut inference = TypeInference::new();
    inference.infer_object(&object);
    assert!(inference.narrow_function_params(&mut object));
    assert_eq!(object.functions[0].parameters[0].1, Type::Int(BitWidth::I32));
}
