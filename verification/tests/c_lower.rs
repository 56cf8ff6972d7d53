use cerune_lang::ast::{BinaryOp as SourceBinaryOp, UnaryOp as SourceUnaryOp};
use cerune_lang::c_lower::{
    binding_name, collect_array_assignment_types, collect_array_types, lower_binary_op, lower_type,
    lower_type_definitions, lower_unary_op, named_type_dependency, print_format, storage_field_name, BinaryOp,
    PrintFormat, Type as CType, UnaryOp,
};
use cerune_lang::ir::{
    AssignmentProjection, AssignmentTarget, BindingId, Expr, ExprKind, FieldDefinition, FunctionDefinition, Program,
    Statement, StatementKind, Type, TypeDefinition, TypeId,
};
use cerune_lang::source::{SourceId, Span};
use cerune_lang::types::IntegerType;

fn span() -> Span {
    Span { source: SourceId { index: 0 }, start: 0, end: 1 }
}

fn array(element: Type, length: usize) -> Type {
    Type::Array { element: Box::new(element), length }
}

fn c_array(element: CType, length: usize) -> CType {
    CType::Array { element: Box::new(element), length }
}

fn wide() -> Type {
    Type::Integer(IntegerType::I64)
}

fn field(name: &str, ty: Type) -> FieldDefinition {
    FieldDefinition { name: name.to_string(), ty }
}

fn definition(name: &str, fields: Vec<FieldDefinition>) -> TypeDefinition {
    TypeDefinition { name: name.to_string(), fields }
}

fn number(ty: Type) -> Expr {
    Expr { ty, kind: ExprKind::Integer(1) }
}

fn binding(ty: Type, value: Expr) -> Statement {
    Statement { kind: StatementKind::Binding { id: BindingId(0), name: "v".to_string(), ty, value } }
}

fn assignment(element: Type, length: usize) -> Statement {
    Statement {
        kind: StatementKind::Assignment {
            target: AssignmentTarget {
                id: BindingId(1),
                name: "grid".to_string(),
                root_ty: array(copy(&element), length),
                ty: copy(&element),
                projections: vec![AssignmentProjection::Index {
                    index: number(wide()),
                    element: copy(&element),
                    length,
                    span: span(),
                }],
            },
            value: number(element),
        },
    }
}

fn copy(ty: &Type) -> Type {
    match ty {
        Type::String => Type::String,
        Type::Bool => Type::Bool,
        Type::Integer(t) => Type::Integer(*t),
        Type::F32 => Type::F32,
        Type::F64 => Type::F64,
        Type::Named(id) => Type::Named(*id),
        Type::Array { element, length } => array(copy(element), *length),
    }
}

#[test]
fn checked_types_lower_to_their_c_types() {
    assert_eq!(lower_type(&Type::Integer(IntegerType::U64)), CType::U64);
    assert_eq!(lower_type(&Type::Integer(IntegerType::I8)), CType::I64);
    assert_eq!(lower_type(&Type::F32), CType::Float);
    assert_eq!(lower_type(&Type::F64), CType::Double);
    assert_eq!(lower_type(&Type::Named(TypeId(4))), CType::Named(4));
    let nested: CType = array(array(Type::Bool, 2), 3).into();
    assert_eq!(nested, c_array(c_array(CType::Bool, 2), 3));
}

#[test]
fn array_types_are_collected_once_innermost_first() {
    let program = Program {
        type_definitions: vec![definition("Grid", vec![field("cells", array(array(wide(), 2), 3))])],
        function_definitions: vec![FunctionDefinition {
            name: "f".to_string(),
            body: vec![binding(array(wide(), 2), number(array(wide(), 2)))],
        }],
        statements: vec![Statement {
            kind: StatementKind::Print {
                value: Expr {
                    ty: Type::Bool,
                    kind: ExprKind::Array(vec![number(array(Type::Bool, 4))]),
                },
            },
        }],
    };
    assert_eq!(
        collect_array_types(&program),
        vec![c_array(CType::I64, 2), c_array(c_array(CType::I64, 2), 3), c_array(CType::Bool, 4)]
    );
}

#[test]
fn assignment_array_types_come_from_nested_statements() {
    let program = Program {
        type_definitions: vec![],
        function_definitions: vec![],
        statements: vec![
            assignment(wide(), 5),
            Statement {
                kind: StatementKind::While {
                    condition: Expr { ty: Type::Bool, kind: ExprKind::Boolean(true) },
                    body: vec![assignment(wide(), 5), assignment(Type::F64, 2)],
                },
            },
        ],
    };
    assert_eq!(collect_array_assignment_types(&program), vec![c_array(CType::I64, 5), c_array(CType::Double, 2)]);
}

#[test]
fn type_definitions_follow_their_dependencies() {
    let program = Program {
        type_definitions: vec![
            definition("Outer", vec![field("inner", array(Type::Named(TypeId(1)), 3)), field("$tag", wide())]),
            definition("Inner", vec![field("value", Type::Integer(IntegerType::U64))]),
        ],
        function_definitions: vec![],
        statements: vec![],
    };
    let lowered = lower_type_definitions(&program);
    assert_eq!(lowered.len(), 2);
    assert_eq!(lowered[0].id, 1);
    assert_eq!(lowered[0].name, "Inner");
    assert_eq!(lowered[0].fields[0].ty, CType::U64);
    assert_eq!(lowered[1].id, 0);
    assert_eq!(lowered[1].fields[0].ty, c_array(CType::Named(1), 3));
    assert_eq!(lowered[1].fields[1].name, "_dtag");
}

#[test]
fn mutually_dependent_definitions_are_each_emitted_once() {
    let program = Program {
        type_definitions: vec![
            definition("A", vec![field("b", array(Type::Named(TypeId(1)), 1))]),
            definition("B", vec![field("a", Type::Named(TypeId(0)))]),
        ],
        function_definitions: vec![],
        statements: vec![],
    };
    let ids: Vec<usize> = lower_type_definitions(&program).iter().map(|d| d.id).collect();
    assert_eq!(ids, vec![1, 0]);
}

#[test]
fn stored_field_names_escape_internal_names() {
    assert_eq!(storage_field_name("$variant_0"), "_dvariant_u0");
    assert_eq!(storage_field_name("plain_name"), "plain_name");
    assert_eq!(storage_field_name(""), "");
    assert_eq!(storage_field_name("$$"), "_d_d");
}

#[test]
fn bindings_are_named_by_number() {
    assert_eq!(binding_name(BindingId(7), "$it"), "binding_7__it");
    assert_eq!(binding_name(BindingId(12), "count"), "binding_12_count");
}

#[test]
fn named_dependencies_look_through_arrays() {
    assert_eq!(named_type_dependency(&array(array(Type::Named(TypeId(2)), 2), 3)), Some(TypeId(2)));
    assert_eq!(named_type_dependency(&array(Type::String, 2)), None);
}

#[test]
fn scalar_values_print_by_their_types() {
    assert_eq!(print_format(&Type::Integer(IntegerType::U64)), PrintFormat::U64);
    assert_eq!(print_format(&Type::Integer(IntegerType::U8)), PrintFormat::I64);
    assert_eq!(print_format(&Type::String), PrintFormat::String);
    assert_eq!(print_format(&Type::Bool), PrintFormat::Bool);
    assert_eq!(print_format(&Type::F32), PrintFormat::F32);
    assert_eq!(print_format(&Type::F64), PrintFormat::F64);
}

#[test]
fn integer_arithmetic_is_checked() {
    assert_eq!(lower_unary_op(SourceUnaryOp::Negate, &wide()), UnaryOp::CheckedI64Negate);
    assert_eq!(lower_unary_op(SourceUnaryOp::Negate, &Type::F64), UnaryOp::Negate);
    assert_eq!(lower_unary_op(SourceUnaryOp::Not, &Type::Bool), UnaryOp::Not);
    assert_eq!(lower_binary_op(SourceBinaryOp::Add, &wide()), BinaryOp::CheckedI64Add);
    assert_eq!(lower_binary_op(SourceBinaryOp::Divide, &wide()), BinaryOp::CheckedI64Divide);
    assert_eq!(lower_binary_op(SourceBinaryOp::Divide, &Type::F32), BinaryOp::Divide);
    assert_eq!(lower_binary_op(SourceBinaryOp::Less, &wide()), BinaryOp::Less);
    assert_eq!(lower_binary_op(SourceBinaryOp::GreaterEqual, &Type::String), BinaryOp::GreaterEqual);
}

#[test]
fn distinct_internal_names_are_stored_apart() {
    assert_eq!(storage_field_name("$Some$text"), "_dSome_dtext");
    assert_eq!(storage_field_name("$a_b"), "_da_ub");
    assert_eq!(storage_field_name("$tag"), "_dtag");
    assert_ne!(storage_field_name("$a_b"), storage_field_name("$a$b"));
    assert_ne!(storage_field_name("$a_ub"), storage_field_name("$a__b"));
}
