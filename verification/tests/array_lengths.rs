use cerune_lang::array_lengths::{resolve, resolve_copy, resolve_length, resolve_type, ConstantValue, EvaluatedConstant};
use cerune_lang::ast::{
    ArrayLengthRef, ConstantDefinition, Expr, ExprKind, FunctionDefinition, IntegerLiteral, Item, Parameter, Program,
    ReturnTypeRef, TypeRef, TypeRefKind,
};
use cerune_lang::source::{SourceId, Span};

fn at(start: usize) -> Span {
    Span { source: SourceId { index: 2 }, start, end: start + 1 }
}

fn table() -> Vec<EvaluatedConstant> {
    vec![
        EvaluatedConstant { name: "SIZE".to_string(), value: ConstantValue::Integer(3) },
        EvaluatedConstant { name: "ZERO".to_string(), value: ConstantValue::Integer(0) },
        EvaluatedConstant { name: "HUGE".to_string(), value: ConstantValue::Integer(i64::MAX as i128 + 1) },
        EvaluatedConstant { name: "TEXT".to_string(), value: ConstantValue::Other },
        EvaluatedConstant { name: "SIZE".to_string(), value: ConstantValue::Integer(9) },
    ]
}

fn message(name: &str) -> String {
    resolve_length(&table(), name, at(4)).unwrap_err().message
}

#[test]
fn a_positive_integer_constant_gives_its_length() {
    assert_eq!(resolve_length(&table(), "SIZE", at(4)), Ok(3));
}

#[test]
fn other_constants_give_no_length() {
    assert_eq!(message("ZERO"), "array length must be greater than zero");
    assert_eq!(message("HUGE"), "array length is too large");
    assert_eq!(message("TEXT"), "array length constant must have an integer type");
    assert_eq!(message("n"), "array length requires a constant: unknown constant n");
    assert_eq!(resolve_length(&table(), "n", at(4)).unwrap_err().span, Some(at(4)));
}

#[test]
fn nested_constant_lengths_are_resolved_innermost_first() {
    let inner = TypeRef {
        kind: TypeRefKind::ArrayConstant {
            element: Box::new(TypeRef { kind: TypeRefKind::Named("u8".to_string()), span: at(1) }),
            constant: Box::new(ArrayLengthRef { name: "SIZE".to_string(), span: at(2) }),
        },
        span: at(3),
    };
    let outer = TypeRef {
        kind: TypeRefKind::Array { element: Box::new(inner), length: 5 },
        span: at(5),
    };
    let outer = TypeRef {
        kind: TypeRefKind::ArrayConstant {
            element: Box::new(outer),
            constant: Box::new(ArrayLengthRef { name: "SIZE".to_string(), span: at(6) }),
        },
        span: at(7),
    };
    let (resolved, uses) = resolve_type(&table(), outer).unwrap();
    let expected = TypeRef {
        kind: TypeRefKind::Array {
            element: Box::new(TypeRef {
                kind: TypeRefKind::Array {
                    element: Box::new(TypeRef {
                        kind: TypeRefKind::Array {
                            element: Box::new(TypeRef { kind: TypeRefKind::Named("u8".to_string()), span: at(1) }),
                            length: 3,
                        },
                        span: at(3),
                    }),
                    length: 5,
                },
                span: at(5),
            }),
            length: 3,
        },
        span: at(7),
    };
    assert_eq!(resolved, expected);
    assert_eq!(uses.len(), 2);
    assert_eq!(uses[0].span, at(2));
    assert_eq!(uses[1].span, at(6));
    assert_eq!(uses[1].name, "SIZE");
    assert_eq!(uses[1].length, 3);
}

#[test]
fn a_failing_length_stops_type_resolution_at_its_name() {
    let ty = TypeRef {
        kind: TypeRefKind::ArrayConstant {
            element: Box::new(TypeRef { kind: TypeRefKind::Named("u8".to_string()), span: at(1) }),
            constant: Box::new(ArrayLengthRef { name: "ZERO".to_string(), span: at(2) }),
        },
        span: at(3),
    };
    let e = resolve_type(&table(), ty).unwrap_err();
    assert_eq!(e.message, "array length must be greater than zero");
    assert_eq!(e.span, Some(at(2)));
}

fn named(name: &str) -> TypeRef {
    TypeRef { kind: TypeRefKind::Named(name.to_string()), span: at(20) }
}

fn sized(name: &str, start: usize) -> TypeRef {
    TypeRef {
        kind: TypeRefKind::ArrayConstant {
            element: Box::new(named("i64")),
            constant: Box::new(ArrayLengthRef { name: name.to_string(), span: at(start) }),
        },
        span: at(start),
    }
}

fn number() -> Expr {
    Expr { kind: ExprKind::Integer(IntegerLiteral::decimal("3".to_string())), span: at(30) }
}

fn constant(name: &str, type_ref: TypeRef, value: Expr, start: usize) -> Item {
    Item::ConstantDefinition(ConstantDefinition { name: name.to_string(), name_span: at(start), type_ref, value, span: at(start) })
}

fn taking(type_ref: TypeRef) -> Item {
    Item::FunctionDefinition(FunctionDefinition {
        generic_parameters: vec![],
        name: "f".to_string(),
        name_span: at(40),
        parameters: vec![Parameter { name: "v".to_string(), name_span: at(41), type_ref, span: at(41) }],
        return_type: ReturnTypeRef::Value(named("i64")),
        body: vec![],
        span: at(40),
    })
}

fn failure(items: Vec<Item>) -> String {
    match resolve(Program { items }, &table()) {
        Ok(_) => panic!("expected an error"),
        Err(e) => e.message,
    }
}

#[test]
fn program_types_take_the_values_of_their_length_constants() {
    let program = Program { items: vec![constant("SIZE", named("i64"), number(), 1), taking(sized("SIZE", 50))] };
    let (resolved, uses) = resolve(program, &table()).unwrap();
    assert_eq!(resolved.items.len(), 2);
    match &resolved.items[1] {
        Item::FunctionDefinition(d) => match &d.parameters[0].type_ref.kind {
            TypeRefKind::Array { length, .. } => assert_eq!(*length, 3),
            _ => panic!("expected an array"),
        },
        _ => panic!("expected a function"),
    }
    assert_eq!(uses.len(), 1);
    assert_eq!(uses[0].name, "SIZE");
    assert_eq!(uses[0].span, at(50));
}

#[test]
fn length_constants_must_be_sound() {
    let cycle = vec![
        constant("SIZE", sized("ZERO", 2), number(), 1),
        constant("ZERO", sized("SIZE", 4), number(), 3),
        taking(sized("SIZE", 50)),
    ];
    assert_eq!(failure(cycle), "cyclic array length dependency through constant ZERO");
    let calling = Expr {
        kind: ExprKind::Call { name: "g".to_string(), name_span: at(31), arguments: vec![] },
        span: at(31),
    };
    let called = vec![constant("SIZE", named("i64"), calling, 1), taking(sized("SIZE", 50))];
    assert_eq!(failure(called), "function calls are not allowed in constant expressions");
    assert_eq!(failure(vec![taking(sized("MISSING", 50))]), "array length requires a constant: unknown constant MISSING");
    let twice = vec![constant("SIZE", named("i64"), number(), 1), constant("SIZE", named("i64"), number(), 2), taking(sized("SIZE", 50))];
    assert_eq!(failure(twice), "duplicate constant SIZE");
    let zero = vec![constant("ZERO", named("i64"), number(), 1), taking(sized("ZERO", 50))];
    assert_eq!(failure(zero), "array length must be greater than zero");
    let unknown = vec![constant("SIZE", named("Missing"), number(), 1), taking(sized("SIZE", 50))];
    assert_eq!(failure(unknown), "unknown type Missing");
}

#[test]
fn a_copy_is_resolved_against_its_source() {
    let items = || vec![constant("SIZE", named("i64"), number(), 1), taking(sized("SIZE", 50))];
    let source = Program { items: items() };
    let (resolved, uses) = resolve_copy(&source, items(), &table()).unwrap();
    assert_eq!(resolved.items.len(), 2);
    match &resolved.items[0] {
        Item::ConstantDefinition(d) => {
            assert_eq!(d.name, "SIZE");
            assert_eq!(d.type_ref, named("i64"));
        },
        _ => panic!("expected a constant"),
    }
    match &resolved.items[1] {
        Item::FunctionDefinition(d) => match &d.parameters[0].type_ref.kind {
            TypeRefKind::Array { length, element } => {
                assert_eq!(*length, 3);
                assert_eq!(**element, named("i64"));
            },
            _ => panic!("expected an array"),
        },
        _ => panic!("expected a function"),
    }
    assert_eq!(uses.len(), 1);
    assert_eq!(uses[0].length, 3);
    let lacking = Program { items: vec![taking(sized("SIZE", 50))] };
    assert_eq!(
        resolve_copy(&lacking, items(), &table()).unwrap_err().message,
        "array length requires a constant: unknown constant SIZE"
    );
}

#[test]
fn a_program_without_constant_lengths_resolves_as_it_is() {
    let fixed = TypeRef {
        kind: TypeRefKind::Array { element: Box::new(named("i64")), length: 4 },
        span: at(60),
    };
    let program = Program { items: vec![constant("MISSING", named("i64"), number(), 1), taking(fixed)] };
    let (resolved, uses) = resolve(program, &Vec::new()).unwrap();
    assert_eq!(resolved.items.len(), 2);
    assert!(uses.is_empty());
    match &resolved.items[1] {
        Item::FunctionDefinition(d) => assert_eq!(
            d.parameters[0].type_ref.kind,
            TypeRefKind::Array { element: Box::new(named("i64")), length: 4 }
        ),
        _ => panic!("expected a function"),
    }
}

#[test]
fn every_replaced_length_is_recorded_in_the_order_met() {
    let program = Program {
        items: vec![
            constant("SIZE", named("i64"), number(), 1),
            taking(sized("SIZE", 50)),
            constant("SMALL", sized("SIZE", 70), number(), 2),
            taking(sized("SIZE", 60)),
        ],
    };
    let (_, uses) = resolve(program, &table()).unwrap();
    assert_eq!(uses.len(), 3);
    assert_eq!(uses[0].span, at(50));
    assert_eq!(uses[1].span, at(70));
    assert_eq!(uses[2].span, at(60));
    assert!(uses.iter().all(|u| u.name == "SIZE" && u.length == 3));
}
