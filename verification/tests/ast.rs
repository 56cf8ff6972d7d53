use cerune_lang::ast::{
    Expr, ExprKind, IntegerLiteral, Item, Program, Stmt, StmtKind, Type, TypeDefinition, TypeRef, TypeRefKind,
};
use cerune_lang::source::{SourceId, Span};
use cerune_lang::types::IntegerType;

fn span(start: usize) -> Span {
    Span { source: SourceId { index: 0 }, start, end: start + 1 }
}

fn print(value: bool, at: usize) -> Stmt {
    Stmt { kind: StmtKind::Print { value: Expr { kind: ExprKind::Boolean(value), span: span(at) } }, span: span(at) }
}

#[test]
fn builtin_type_names_resolve() {
    assert_eq!(Type::from_name("bool"), Some(Type::Bool));
    assert_eq!(Type::from_name("string"), Some(Type::String));
    assert_eq!(Type::from_name("f32"), Some(Type::F32));
    assert_eq!(Type::from_name("f64"), Some(Type::F64));
    assert_eq!(Type::from_name("u16"), Some(Type::Integer(IntegerType::U16)));
    assert_eq!(Type::from_name("Point"), None);
    assert_eq!(Type::from_name("infer"), None);
}

#[test]
fn statements_are_counted_past_definitions() {
    let program = Program {
        items: vec![
            Item::Statement(print(true, 0)),
            Item::TypeDefinition(TypeDefinition {
                variants: None,
                name: "P".to_string(),
                name_span: span(5),
                fields: vec![],
                span: span(5),
            }),
            Item::Statement(print(false, 9)),
        ],
    };
    assert_eq!(program.statement(0).span, span(0));
    assert_eq!(program.statement(1).span, span(9));
}

#[test]
fn written_types_compare_by_name() {
    let named = TypeRef { kind: TypeRefKind::Named("i64".to_string()), span: span(0) };
    assert!(named.is_named("i64"));
    assert!(!named.is_named("i32"));
    let array = TypeRef { kind: TypeRefKind::Array { element: Box::new(named), length: 2 }, span: span(0) };
    assert!(!array.is_named("i64"));
}

#[test]
fn integer_literals_keep_digits_and_type() {
    let plain = IntegerLiteral::decimal("42".to_string());
    assert_eq!(plain.digits(), "42");
    assert_eq!(plain.explicit_type(), None);
    let typed = IntegerLiteral::with_type("7".to_string(), IntegerType::U8);
    assert_eq!(typed.digits(), "7");
    assert_eq!(typed.explicit_type(), Some(IntegerType::U8));
}
