use cerune_lang::ast::BinaryOp as SourceBinaryOp;
use cerune_lang::ir::{BindingId, Expr, ExprKind, Statement, StatementKind, Type, TypeId};
use cerune_lang::llvm_lower::{
    binary_op, collect_slots, compare_op, lower_type, BinaryOp, CompareOp, Slot, SlotId, Type as LlvmType,
};
use cerune_lang::types::IntegerType;

#[test]
fn every_integer_is_held_as_i64() {
    assert_eq!(lower_type(&Type::Integer(IntegerType::U64)), LlvmType::I64);
    assert_eq!(lower_type(&Type::Integer(IntegerType::I8)), LlvmType::I64);
    assert_eq!(lower_type(&Type::F32), LlvmType::Float);
    assert_eq!(lower_type(&Type::F64), LlvmType::Double);
    assert_eq!(lower_type(&Type::Named(TypeId(2))), LlvmType::Named(2));
    let array: LlvmType = Type::Array { element: Box::new(Type::Bool), length: 4 }.into();
    assert_eq!(array, LlvmType::Array { element: Box::new(LlvmType::Bool), length: 4 });
}

#[test]
fn arithmetic_on_i64_is_checked() {
    assert_eq!(binary_op(SourceBinaryOp::Add, &LlvmType::I64), BinaryOp::CheckedI64Add);
    assert_eq!(binary_op(SourceBinaryOp::Subtract, &LlvmType::I64), BinaryOp::CheckedI64Sub);
    assert_eq!(binary_op(SourceBinaryOp::Multiply, &LlvmType::I64), BinaryOp::CheckedI64Mul);
    assert_eq!(binary_op(SourceBinaryOp::Divide, &LlvmType::I64), BinaryOp::CheckedI64Div);
    assert_eq!(binary_op(SourceBinaryOp::Add, &LlvmType::Float), BinaryOp::FAdd);
    assert_eq!(binary_op(SourceBinaryOp::Divide, &LlvmType::Double), BinaryOp::FDiv);
}

#[test]
fn comparisons_have_operations_of_their_own() {
    assert_eq!(compare_op(SourceBinaryOp::Equal), Some(CompareOp::Equal));
    assert_eq!(compare_op(SourceBinaryOp::GreaterEqual), Some(CompareOp::GreaterEqual));
    assert_eq!(compare_op(SourceBinaryOp::Add), None);
    assert_eq!(compare_op(SourceBinaryOp::ShiftLeft), None);
}

fn binding(id: usize, name: &str, ty: Type) -> Statement {
    Statement {
        kind: StatementKind::Binding {
            id: BindingId(id),
            name: name.to_string(),
            ty,
            value: Expr { ty: Type::Bool, kind: ExprKind::Boolean(true) },
        },
    }
}

#[test]
fn repeated_names_get_the_binding_number() {
    let statements = vec![
        binding(3, "x", Type::Integer(IntegerType::I64)),
        Statement {
            kind: StatementKind::If {
                condition: Expr { ty: Type::Bool, kind: ExprKind::Boolean(true) },
                then_body: vec![binding(7, "x", Type::F64)],
                else_body: vec![binding(9, "y", Type::Bool)],
            },
        },
    ];
    let mut slots: Vec<Slot> = Vec::new();
    let mut slot_map: Vec<(BindingId, SlotId)> = Vec::new();
    let mut counts: Vec<(String, usize)> = Vec::new();
    collect_slots(&statements, &mut slots, &mut slot_map, &mut counts);
    let names: Vec<&str> = slots.iter().map(|s| s.name.as_str()).collect();
    assert_eq!(names, vec!["x", "x_7", "y"]);
    assert_eq!(slots[1].ty, LlvmType::Double);
    assert_eq!(slot_map, vec![(BindingId(3), SlotId(0)), (BindingId(7), SlotId(1)), (BindingId(9), SlotId(2))]);
    assert_eq!(counts, vec![("x".to_string(), 2), ("y".to_string(), 1)]);
}

#[test]
fn parameters_count_as_earlier_names() {
    let mut slots = vec![Slot { name: "n".to_string(), ty: LlvmType::I64 }];
    let mut slot_map: Vec<(BindingId, SlotId)> = vec![(BindingId(0), SlotId(0))];
    let mut counts = vec![("n".to_string(), 1)];
    collect_slots(&vec![binding(4, "n", Type::Bool)], &mut slots, &mut slot_map, &mut counts);
    assert_eq!(slots[1].name, "n_4");
    assert_eq!(slot_map[1], (BindingId(4), SlotId(1)));
    assert_eq!(counts, vec![("n".to_string(), 2)]);
}
