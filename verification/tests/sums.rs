use cerune_lang::ast::{
    Expr, ExprKind, FieldDefinition, FieldValue, Item, MatchArm, PatternField, Program, Stmt, StmtKind,
    TypeDefinition, TypeRef, TypeRefKind, VariantDefinition,
};
use cerune_lang::source::{SourceId, Span};
use cerune_lang::sums::lower;

fn at(start: usize) -> Span {
    Span { source: SourceId { index: 0 }, start, end: start + 1 }
}

fn ty(name: &str) -> TypeRef {
    TypeRef { kind: TypeRefKind::Named(name.to_string()), span: at(0) }
}

fn field(name: &str, written: &str) -> FieldDefinition {
    FieldDefinition { name: name.to_string(), name_span: at(1), type_ref: ty(written), default: None, span: at(1) }
}

fn variant(name: &str, fields: Vec<FieldDefinition>) -> VariantDefinition {
    VariantDefinition { name: name.to_string(), name_span: at(2), fields, span: at(2) }
}

fn enumeration(name: &str, variants: Vec<VariantDefinition>) -> Item {
    Item::TypeDefinition(TypeDefinition {
        variants: Some(variants),
        name: name.to_string(),
        name_span: at(3),
        fields: vec![],
        span: at(3),
    })
}

fn option() -> Item {
    enumeration("E", vec![variant("None", vec![]), variant("Some", vec![field("text", "string"), field("n", "u8")])])
}

fn construct(path: &str, fields: Vec<(&str, Expr)>) -> Expr {
    Expr {
        kind: ExprKind::Construct {
            type_path: path.to_string(),
            type_path_span: at(4),
            base: None,
            fields: fields
                .into_iter()
                .map(|(name, value)| FieldValue {
                    generated: false,
                    name: name.to_string(),
                    name_span: at(5),
                    value,
                    span: at(5),
                })
                .collect(),
        },
        span: at(6),
    }
}

fn string(text: &str) -> Expr {
    Expr { kind: ExprKind::String(text.to_string()), span: at(7) }
}

fn arm(path: &str, fields: Vec<(&str, &str)>) -> MatchArm {
    MatchArm {
        variant: path.to_string(),
        variant_span: at(8),
        fields: fields
            .into_iter()
            .map(|(name, binding)| PatternField {
                name: name.to_string(),
                name_span: at(9),
                binding: binding.to_string(),
                binding_span: at(10),
            })
            .collect(),
        body: vec![Stmt { kind: StmtKind::Break, span: at(11) }],
        span: at(8),
    }
}

fn matching(arms: Vec<MatchArm>) -> Item {
    Item::Statement(Stmt {
        kind: StmtKind::Match { value: Expr { kind: ExprKind::Variable("x".to_string()), span: at(12) }, arms },
        span: at(13),
    })
}

fn message(program: Program) -> String {
    lower(program).unwrap_err().message
}

#[test]
fn enums_become_a_tag_and_payload_storage() {
    let lowered = lower(Program { items: vec![option()] }).unwrap();
    match &lowered.items[0] {
        Item::TypeDefinition(d) => {
            let names: Vec<&str> = d.fields.iter().map(|f| f.name.as_str()).collect();
            assert_eq!(names, vec!["$tag", "$Some$text", "$Some$n"]);
            assert_eq!(d.fields[0].type_ref, ty("i64").clone_like(at(3)));
            assert_eq!(d.fields[2].type_ref, ty("u8"));
        },
        other => panic!("{other:?}"),
    }
}

trait SpanLike {
    fn clone_like(self, span: Span) -> Self;
}

impl SpanLike for TypeRef {
    fn clone_like(self, span: Span) -> Self {
        TypeRef { kind: self.kind, span }
    }
}

#[test]
fn constructors_fill_the_tag_and_zero_inactive_payloads() {
    let value = construct("E::None", vec![]);
    let program = Program {
        items: vec![option(), Item::Statement(Stmt { kind: StmtKind::Print { value }, span: at(14) })],
    };
    let lowered = lower(program).unwrap();
    match &lowered.items[1] {
        Item::Statement(Stmt { kind: StmtKind::Print { value }, .. }) => match &value.kind {
            ExprKind::Construct { type_path, fields, .. } => {
                assert_eq!(type_path, "E");
                let names: Vec<&str> = fields.iter().map(|f| f.name.as_str()).collect();
                assert_eq!(names, vec!["$tag", "$Some$text", "$Some$n"]);
                match &fields[0].value.kind {
                    ExprKind::Integer(lit) => assert_eq!(lit.digits(), "0"),
                    other => panic!("{other:?}"),
                }
                assert_eq!(fields[1].value.kind, ExprKind::String(String::new()));
                match &fields[2].value.kind {
                    ExprKind::Integer(lit) => assert_eq!(lit.digits(), "0"),
                    other => panic!("{other:?}"),
                }
                assert!(fields.iter().all(|f| f.generated));
            },
            other => panic!("{other:?}"),
        },
        other => panic!("{other:?}"),
    }

    let some = construct("E::Some", vec![("n", string("x")), ("text", string("y"))]);
    let program = Program { items: vec![option(), Item::Statement(Stmt { kind: StmtKind::Print { value: some }, span: at(14) })] };
    match &lower(program).unwrap().items[1] {
        Item::Statement(Stmt { kind: StmtKind::Print { value }, .. }) => match &value.kind {
            ExprKind::Construct { fields, .. } => {
                let names: Vec<&str> = fields.iter().map(|f| f.name.as_str()).collect();
                assert_eq!(names, vec!["$tag", "$Some$n", "$Some$text"]);
                match &fields[0].value.kind {
                    ExprKind::Integer(lit) => assert_eq!(lit.digits(), "1"),
                    other => panic!("{other:?}"),
                }
            },
            other => panic!("{other:?}"),
        },
        other => panic!("{other:?}"),
    }
}

#[test]
fn match_becomes_one_capture_and_tag_tests() {
    let program = Program {
        items: vec![option(), matching(vec![arm("E::Some", vec![("text", "t"), ("n", "_")]), arm("E::None", vec![])])],
    };
    let lowered = lower(program).unwrap();
    match &lowered.items[1] {
        Item::Statement(Stmt { kind: StmtKind::Block(block), span }) => {
            assert_eq!(*span, at(13));
            assert_eq!(block.len(), 2);
            match &block[0].kind {
                StmtKind::Binding { name, .. } => assert_eq!(name, "$match0"),
                other => panic!("{other:?}"),
            }
            match &block[1].kind {
                StmtKind::If { then_body, else_body, condition } => {
                    match &condition.kind {
                        ExprKind::Binary { right, .. } => match &right.kind {
                            ExprKind::Integer(lit) => assert_eq!(lit.digits(), "1"),
                            other => panic!("{other:?}"),
                        },
                        other => panic!("{other:?}"),
                    }
                    // the binding of `t`, then the arm's own body
                    assert_eq!(then_body.len(), 2);
                    match &then_body[0].kind {
                        StmtKind::Binding { name, value, .. } => {
                            assert_eq!(name, "t");
                            match &value.kind {
                                ExprKind::FieldAccess { field_name, .. } => assert_eq!(field_name, "$Some$text"),
                                other => panic!("{other:?}"),
                            }
                        },
                        other => panic!("{other:?}"),
                    }
                    assert!(matches!(else_body[0].kind, StmtKind::Block(_)));
                },
                other => panic!("{other:?}"),
            }
        },
        other => panic!("{other:?}"),
    }
}

#[test]
fn malformed_enums_are_rejected() {
    assert_eq!(message(Program { items: vec![enumeration("E", vec![])] }), "an enum requires at least one variant");
    assert_eq!(
        message(Program { items: vec![enumeration("E", vec![variant("A", vec![]), variant("A", vec![])])] }),
        "duplicate variant A"
    );
    assert_eq!(
        message(Program { items: vec![enumeration("E", vec![variant("A", vec![field("x", "i64"), field("x", "i64")])])] }),
        "duplicate payload field x"
    );
    let mut with_default = field("x", "i64");
    with_default.default = Some(string("d"));
    assert_eq!(
        message(Program { items: vec![enumeration("E", vec![variant("A", vec![with_default])])] }),
        "enum payload fields cannot have defaults"
    );
    assert_eq!(message(Program { items: vec![option(), option()] }), "duplicate type `E`");
}

#[test]
fn bad_matches_and_constructors_are_rejected() {
    let missing = Program { items: vec![option(), matching(vec![arm("E::None", vec![])])] };
    assert_eq!(message(missing), "non-exhaustive match; missing variants: Some");
    let twice = Program {
        items: vec![option(), matching(vec![arm("E::None", vec![]), arm("E::None", vec![])])],
    };
    assert_eq!(message(twice), "duplicate match arm E::None");
    let unknown = Program { items: vec![option(), matching(vec![arm("E::Z", vec![])])] };
    assert_eq!(message(unknown), "unknown variant E::Z");
    let pattern = Program { items: vec![option(), matching(vec![arm("E::Some", vec![("text", "t")]), arm("E::None", vec![])])] };
    assert_eq!(message(pattern), "missing pattern field n; use _ to discard its value");
    let empty = Program { items: vec![option(), matching(vec![])] };
    assert_eq!(message(empty), "match requires every enum variant");
    let bare = Program {
        items: vec![option(), Item::Statement(Stmt { kind: StmtKind::Print { value: construct("E", vec![]) }, span: at(0) })],
    };
    assert_eq!(message(bare), "enum values require an Enum::Variant constructor");
    let missing_payload = Program {
        items: vec![option(), Item::Statement(Stmt { kind: StmtKind::Print { value: construct("E::Some", vec![("n", string("1"))]) }, span: at(0) })],
    };
    assert_eq!(message(missing_payload), "missing payload field text");
}

#[test]
fn programs_without_enums_lower_unchanged() {
    let point = Item::TypeDefinition(TypeDefinition {
        variants: None,
        name: "Point".to_string(),
        name_span: at(3),
        fields: vec![field("x", "i64")],
        span: at(3),
    });
    let print = Item::Statement(Stmt { kind: StmtKind::Print { value: construct("Point", vec![("x", string("1"))]) }, span: at(14) });
    let lowered = lower(Program { items: vec![point, print] }).unwrap();
    assert_eq!(lowered.items.len(), 2);
    match &lowered.items[0] {
        Item::TypeDefinition(d) => {
            assert_eq!(d.name, "Point");
            assert_eq!(d.fields.len(), 1);
        },
        _ => panic!("expected a type definition"),
    }
    match &lowered.items[1] {
        Item::Statement(Stmt { kind: StmtKind::Print { value }, .. }) => match &value.kind {
            ExprKind::Construct { type_path, fields, .. } => {
                assert_eq!(type_path, "Point");
                assert_eq!(fields.len(), 1);
                assert_eq!(fields[0].name, "x");
            },
            _ => panic!("expected a constructor"),
        },
        _ => panic!("expected a print statement"),
    }
}
