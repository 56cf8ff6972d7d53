use cerune_lang::ast::{
    AssignmentTarget, ConstantDefinition, Expr, ExprKind, FieldDefinition, FieldValue, FunctionDefinition, Item,
    MatchArm, Parameter, Program, ReturnTypeRef, Stmt, StmtKind, TypeDefinition, TypeRef, TypeRefKind, TypeSpec,
    VariantDefinition,
};
use cerune_lang::modules::resolve::resolve;
use cerune_lang::modules::Unit;
use cerune_lang::source::{SourceId, Span};

fn at(source: usize, start: usize) -> Span {
    Span { source: SourceId { index: source }, start, end: start + 1 }
}

fn named(name: &str, span: Span) -> TypeRef {
    TypeRef { kind: TypeRefKind::Named(name.to_string()), span }
}

fn variable(name: &str, span: Span) -> Expr {
    Expr { kind: ExprKind::Variable(name.to_string()), span }
}

fn call(name: &str, arguments: Vec<Expr>, span: Span) -> Expr {
    Expr { kind: ExprKind::Call { name: name.to_string(), name_span: span, arguments }, span }
}

fn print(value: Expr) -> Item {
    let span = value.span;
    Item::Statement(Stmt { kind: StmtKind::Print { value }, span })
}

fn function(name: &str, name_span: Span, parameters: Vec<Parameter>, returns: TypeRef, body: Vec<Stmt>) -> Item {
    Item::FunctionDefinition(FunctionDefinition {
        generic_parameters: vec![],
        name: name.to_string(),
        name_span,
        parameters,
        return_type: ReturnTypeRef::Value(returns),
        body,
        span: name_span,
    })
}

fn constant(name: &str, name_span: Span) -> Item {
    Item::ConstantDefinition(ConstantDefinition {
        name: name.to_string(),
        name_span,
        type_ref: named("i64", name_span),
        value: Expr { kind: ExprKind::Boolean(true), span: name_span },
        span: name_span,
    })
}

fn product(name: &str, name_span: Span, field_type: &str) -> Item {
    Item::TypeDefinition(TypeDefinition {
        variants: None,
        name: name.to_string(),
        name_span,
        fields: vec![FieldDefinition {
            name: "x".to_string(),
            name_span,
            type_ref: named(field_type, name_span),
            default: None,
            span: name_span,
        }],
        span: name_span,
    })
}

fn unit(index: usize, items: Vec<Item>, exports: Vec<Span>, imports: Vec<(&str, usize)>) -> Unit {
    Unit {
        id: SourceId { index },
        program: Program { items },
        exports: exports.into_iter().map(|span| ("x".to_string(), span)).collect(),
        imports: imports.into_iter().map(|(alias, target)| (alias.to_string(), target)).collect(),
    }
}

fn helper_unit(export: bool) -> Unit {
    let span = at(1, 5);
    let exports = if export { vec![span] } else { vec![] };
    unit(1, vec![function("helper", span, vec![], named("i64", at(1, 9)), vec![])], exports, vec![])
}

fn message(units: Vec<Unit>) -> String {
    match resolve(units) {
        Ok(_) => panic!("expected an error"),
        Err(e) => e.message,
    }
}

fn declared(item: &Item) -> String {
    match item {
        Item::FunctionDefinition(d) => d.name.clone(),
        Item::ConstantDefinition(d) => d.name.clone(),
        Item::TypeDefinition(d) => d.name.clone(),
        Item::Statement(_) => String::new(),
    }
}

#[test]
fn definitions_get_program_wide_names_and_references_follow() {
    let main_unit = unit(
        0,
        vec![
            function("main", at(0, 1), vec![], named("i64", at(0, 2)), vec![]),
            constant("LIMIT", at(0, 3)),
            print(call("lib::helper", vec![variable("LIMIT", at(0, 4))], at(0, 6))),
        ],
        vec![],
        vec![("lib", 1)],
    );
    let program = resolve(vec![main_unit, helper_unit(true)]).unwrap();
    assert_eq!(program.items.len(), 4);
    assert_eq!(declared(&program.items[0]), "main");
    assert_eq!(declared(&program.items[1]), "module_0_LIMIT");
    assert_eq!(declared(&program.items[3]), "module_1_helper");
    match &program.items[2] {
        Item::Statement(Stmt { kind: StmtKind::Print { value }, .. }) => match &value.kind {
            ExprKind::Call { name, arguments, .. } => {
                assert_eq!(name, "module_1_helper");
                assert_eq!(arguments[0].kind, ExprKind::Variable("module_0_LIMIT".to_string()));
            },
            _ => panic!("expected a call"),
        },
        _ => panic!("expected a print"),
    }
}

#[test]
fn main_keeps_its_name_only_in_the_first_unit() {
    let first = unit(0, vec![], vec![], vec![]);
    let second = unit(3, vec![function("main", at(3, 1), vec![], named("i64", at(3, 2)), vec![])], vec![], vec![]);
    let program = resolve(vec![first, second]).unwrap();
    assert_eq!(declared(&program.items[0]), "module_3_main");
}

#[test]
fn reserved_conflicting_and_duplicate_definitions_are_refused() {
    assert_eq!(
        message(vec![unit(0, vec![product("i64", at(0, 1), "bool")], vec![], vec![])]),
        "definition name `i64` is reserved"
    );
    assert_eq!(
        message(vec![unit(0, vec![constant("byte_len", at(0, 1))], vec![], vec![])]),
        "definition name `byte_len` is reserved"
    );
    assert_eq!(
        message(vec![unit(0, vec![constant("lib", at(0, 1))], vec![], vec![("lib", 1)]), helper_unit(true)]),
        "definition `lib` conflicts with an import alias"
    );
    let twice = vec![
        function("f", at(0, 1), vec![], named("i64", at(0, 2)), vec![]),
        constant("f", at(0, 3)),
        function("f", at(0, 4), vec![], named("i64", at(0, 5)), vec![]),
    ];
    match resolve(vec![unit(0, twice, vec![], vec![])]) {
        Err(e) => {
            assert_eq!(e.message, "duplicate function `f`");
            assert_eq!(e.span, Some(at(0, 4)));
        },
        Ok(_) => panic!("expected an error"),
    }
}

#[test]
fn references_must_name_visible_definitions() {
    let unknown_alias = unit(0, vec![print(call("other::helper", vec![], at(0, 6)))], vec![], vec![("lib", 1)]);
    assert_eq!(message(vec![unknown_alias, helper_unit(true)]), "unknown import alias `other`");
    let unknown = unit(0, vec![print(call("missing", vec![], at(0, 6)))], vec![], vec![]);
    assert_eq!(message(vec![unknown]), "unknown function `missing`");
    let private = unit(0, vec![print(call("lib::helper", vec![], at(0, 6)))], vec![], vec![("lib", 1)]);
    assert_eq!(
        message(vec![private, helper_unit(false)]),
        "private function `lib::helper` cannot be used through an import"
    );
    let signature = unit(
        0,
        vec![
            product("Point", at(0, 1), "i64"),
            function("f", at(0, 2), vec![], named("Point", at(0, 3)), vec![]),
        ],
        vec![at(0, 2)],
        vec![],
    );
    assert_eq!(message(vec![signature]), "private type `Point` cannot be used in a public signature");
}

#[test]
fn bindings_and_assignments_respect_constants_and_aliases() {
    let binding = |name: &str| Stmt {
        kind: StmtKind::Binding {
            mutable: false,
            name: name.to_string(),
            type_spec: TypeSpec::Infer,
            value: Expr { kind: ExprKind::Boolean(true), span: at(0, 9) },
        },
        span: at(0, 8),
    };
    let shadow = unit(0, vec![constant("LIMIT", at(0, 1)), Item::Statement(binding("LIMIT"))], vec![], vec![]);
    assert_eq!(message(vec![shadow]), "binding LIMIT conflicts with a constant");
    let alias = unit(0, vec![Item::Statement(binding("lib"))], vec![], vec![("lib", 1)]);
    assert_eq!(message(vec![alias, helper_unit(true)]), "binding `lib` conflicts with an import alias");
    let parameter = Parameter { name: "lib".to_string(), name_span: at(0, 4), type_ref: named("i64", at(0, 5)), span: at(0, 4) };
    let in_signature = unit(0, vec![function("f", at(0, 2), vec![parameter], named("i64", at(0, 3)), vec![])], vec![], vec![("lib", 1)]);
    assert_eq!(message(vec![in_signature, helper_unit(true)]), "binding `lib` conflicts with an import alias");
    let assignment = Stmt {
        kind: StmtKind::Assignment {
            target: AssignmentTarget { name: "LIMIT".to_string(), name_span: at(0, 7), projections: vec![], span: at(0, 7) },
            value: Expr { kind: ExprKind::Boolean(true), span: at(0, 9) },
        },
        span: at(0, 6),
    };
    match resolve(vec![unit(0, vec![constant("LIMIT", at(0, 1)), Item::Statement(assignment)], vec![], vec![])]) {
        Err(e) => {
            assert_eq!(e.message, "cannot assign to a constant");
            assert_eq!(e.span, Some(at(0, 7)));
        },
        Ok(_) => panic!("expected an error"),
    }
}

#[test]
fn enum_constructors_and_arms_resolve_the_enum_and_keep_the_variant() {
    let shape = Item::TypeDefinition(TypeDefinition {
        variants: Some(vec![VariantDefinition { name: "Dot".to_string(), name_span: at(0, 2), fields: vec![], span: at(0, 2) }]),
        name: "Shape".to_string(),
        name_span: at(0, 1),
        fields: vec![],
        span: at(0, 1),
    });
    let value = Expr {
        kind: ExprKind::Construct {
            type_path: "Shape::Dot".to_string(),
            type_path_span: at(0, 3),
            base: None,
            fields: vec![FieldValue {
                generated: false,
                name: "x".to_string(),
                name_span: at(0, 4),
                value: Expr { kind: ExprKind::Boolean(true), span: at(0, 4) },
                span: at(0, 4),
            }],
        },
        span: at(0, 3),
    };
    let arm = MatchArm {
        variant: "Shape::Dot".to_string(),
        variant_span: at(0, 5),
        fields: vec![],
        body: vec![],
        span: at(0, 5),
    };
    let statement = Stmt { kind: StmtKind::Match { value, arms: vec![arm] }, span: at(0, 6) };
    let program = resolve(vec![unit(0, vec![shape, Item::Statement(statement)], vec![], vec![])]).unwrap();
    match &program.items[1] {
        Item::Statement(Stmt { kind: StmtKind::Match { value, arms }, .. }) => {
            match &value.kind {
                ExprKind::Construct { type_path, .. } => assert_eq!(type_path, "module_0_Shape::Dot"),
                _ => panic!("expected a constructor"),
            }
            assert_eq!(arms[0].variant, "module_0_Shape::Dot");
        },
        _ => panic!("expected a match"),
    }
    let bare = MatchArm { variant: "Dot".to_string(), variant_span: at(0, 5), fields: vec![], body: vec![], span: at(0, 5) };
    let statement = Stmt {
        kind: StmtKind::Match { value: Expr { kind: ExprKind::Boolean(true), span: at(0, 3) }, arms: vec![bare] },
        span: at(0, 6),
    };
    assert_eq!(message(vec![unit(0, vec![Item::Statement(statement)], vec![], vec![])]), "a match arm requires Enum::Variant");
}
