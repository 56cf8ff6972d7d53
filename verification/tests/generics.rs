use cerune_lang::array_lengths::{ConstantValue, EvaluatedConstant};
use cerune_lang::ast::{
    ConstantDefinition, Expr, ExprKind, FunctionDefinition, GenericArgument, GenericCall, GenericParameter,
    Item, Parameter, Program, ReturnTypeRef, Stmt, StmtKind, TypeRef, TypeRefKind, TypeSpec,
};
use cerune_lang::diagnostic::Diagnostic;
use cerune_lang::generics::{lower, Lowered};
use cerune_lang::source::{SourceId, Span};
use cerune_lang::types::IntegerType;

fn at(start: usize, end: usize) -> Span {
    Span { source: SourceId { index: 0 }, start, end }
}

fn named(name: &str, start: usize) -> TypeRef {
    TypeRef { kind: TypeRefKind::Named(name.to_string()), span: at(start, start + name.len()) }
}

fn array_of(element: TypeRef, constant: &str, start: usize) -> TypeRef {
    TypeRef {
        kind: TypeRefKind::ArrayConstant {
            element: Box::new(element),
            constant: Box::new(cerune_lang::ast::ArrayLengthRef {
                name: constant.to_string(),
                span: at(start, start + constant.len()),
            }),
        },
        span: at(start, start + 8),
    }
}

fn variable(name: &str, start: usize) -> Expr {
    Expr { kind: ExprKind::Variable(name.to_string()), span: at(start, start + name.len()) }
}

fn integer(digits: &str, start: usize) -> Expr {
    Expr {
        kind: ExprKind::Integer(cerune_lang::ast::IntegerLiteral::decimal(digits.to_string())),
        span: at(start, start + digits.len()),
    }
}

fn type_argument(name: &str, start: usize) -> GenericArgument {
    GenericArgument::Type(named(name, start))
}

fn length_argument(value: usize, start: usize) -> GenericArgument {
    GenericArgument::Length { value, span: at(start, start + 1) }
}

fn generic_call(name: &str, arguments: Vec<GenericArgument>, values: Vec<Expr>, start: usize) -> Expr {
    Expr {
        kind: ExprKind::GenericCall(Box::new(GenericCall {
            name: name.to_string(),
            name_span: at(start, start + name.len()),
            generic_arguments: arguments,
            arguments: values,
        })),
        span: at(start, start + 20),
    }
}

fn call(name: &str, values: Vec<Expr>, start: usize) -> Expr {
    Expr {
        kind: ExprKind::Call { name: name.to_string(), name_span: at(start, start + name.len()), arguments: values },
        span: at(start, start + 10),
    }
}

fn print(value: Expr) -> Item {
    let span = value.span;
    Item::Statement(Stmt { kind: StmtKind::Print { value }, span })
}

fn ret(value: Expr) -> Stmt {
    let span = value.span;
    Stmt { kind: StmtKind::Return { value: Some(value) }, span }
}

fn generic(name: &str, length: bool, start: usize) -> GenericParameter {
    GenericParameter { name: name.to_string(), span: at(start, start + name.len()), length }
}

fn parameter(name: &str, written: TypeRef, start: usize) -> Parameter {
    Parameter { name: name.to_string(), name_span: at(start, start + name.len()), type_ref: written, span: at(start, start + 6) }
}

fn function(
    name: &str,
    generics: Vec<GenericParameter>,
    parameters: Vec<Parameter>,
    returns: TypeRef,
    body: Vec<Stmt>,
    start: usize,
) -> Item {
    Item::FunctionDefinition(FunctionDefinition {
        generic_parameters: generics,
        name: name.to_string(),
        name_span: at(start + 3, start + 3 + name.len()),
        parameters,
        return_type: ReturnTypeRef::Value(returns),
        body,
        span: at(start, start + 40),
    })
}

/// `fn echo<T>(v: T) -> T { return v; }` at byte 0.
fn echo() -> Item {
    function(
        "echo",
        vec![generic("T", false, 8)],
        vec![parameter("v", named("T", 14), 11)],
        named("T", 20),
        vec![ret(variable("v", 31))],
        0,
    )
}

/// `fn count<T, const N: i64>(v: [T; N]) -> i64 { return N; }` at byte 100.
fn count() -> Item {
    function(
        "count",
        vec![generic("T", false, 109), generic("N", true, 118)],
        vec![parameter("v", array_of(named("T", 132), "N", 135), 129)],
        named("i64", 142),
        vec![ret(variable("N", 155))],
        100,
    )
}

fn constants() -> Vec<EvaluatedConstant> {
    vec![
        EvaluatedConstant { name: "COUNT".to_string(), value: ConstantValue::Integer(2) },
        EvaluatedConstant { name: "FLAG".to_string(), value: ConstantValue::Other },
    ]
}

fn lowered(items: Vec<Item>) -> Result<Lowered, Diagnostic> {
    lower(Program { items }, &constants())
}

fn error(items: Vec<Item>) -> String {
    match lowered(items) {
        Ok(_) => panic!("expected an error"),
        Err(e) => e.message,
    }
}

fn called(item: &Item) -> String {
    match item {
        Item::Statement(Stmt { kind: StmtKind::Print { value }, .. }) => match &value.kind {
            ExprKind::Call { name, .. } => name.clone(),
            _ => panic!("expected a call"),
        },
        _ => panic!("expected a print statement"),
    }
}

#[test]
fn equal_type_arguments_share_one_instance() {
    let l = lowered(vec![
        echo(),
        print(generic_call("echo", vec![type_argument("i64", 60)], vec![integer("1", 66)], 55)),
        print(generic_call("echo", vec![type_argument("i64", 80)], vec![integer("2", 86)], 75)),
        print(generic_call("echo", vec![type_argument("u8", 95)], vec![integer("3", 100)], 90)),
    ])
    .unwrap();
    assert_eq!(l.origins.len(), 2);
    assert_eq!(l.origins[0].0, "$generic_0_echo");
    assert_eq!(l.origins[0].1.template, "echo");
    assert_eq!(l.origins[0].1.arguments, vec!["i64".to_string()]);
    assert_eq!(l.origins[0].1.calls.len(), 2);
    assert_eq!(l.origins[0].1.calls[0].span, at(55, 75));
    assert_eq!(l.origins[0].1.calls[1].span, at(75, 95));
    assert_eq!(l.origins[0].1.calls[1].argument_spans, vec![at(80, 83)]);
    assert_eq!(l.origins[0].1.definition, at(0, 40));
    assert_eq!(l.origins[1].0, "$generic_1_echo");
    assert_eq!(l.origins[1].1.arguments, vec!["u8".to_string()]);
    assert_eq!(l.types.len(), 3);
    let items = &l.program.items;
    assert_eq!(items.len(), 5);
    assert_eq!(called(&items[0]), "$generic_0_echo");
    assert_eq!(called(&items[1]), "$generic_0_echo");
    assert_eq!(called(&items[2]), "$generic_1_echo");
    match &items[3] {
        Item::FunctionDefinition(d) => {
            assert_eq!(d.name, "$generic_0_echo");
            assert!(d.generic_parameters.is_empty());
            assert_eq!(d.parameters[0].type_ref.kind, TypeRefKind::Named("i64".to_string()));
            assert_eq!(d.parameters[0].type_ref.span, at(14, 15));
            assert_eq!(d.return_type, ReturnTypeRef::Value(TypeRef { kind: TypeRefKind::Named("i64".to_string()), span: at(20, 21) }));
        },
        _ => panic!("expected an instance"),
    }
    match &items[4] {
        Item::FunctionDefinition(d) => {
            assert_eq!(d.name, "$generic_1_echo");
            assert_eq!(d.parameters[0].type_ref.kind, TypeRefKind::Named("u8".to_string()));
        },
        _ => panic!("expected an instance"),
    }
}

#[test]
fn lengths_become_integers_and_constant_lengths_share_instances() {
    let l = lowered(vec![
        count(),
        print(generic_call("count", vec![type_argument("bool", 210), length_argument(2, 216)], vec![], 200)),
        print(generic_call("count", vec![type_argument("bool", 240), type_argument("COUNT", 246)], vec![], 230)),
    ])
    .unwrap();
    assert_eq!(l.origins.len(), 1);
    assert_eq!(l.origins[0].1.arguments, vec!["bool".to_string(), "2".to_string()]);
    assert_eq!(l.origins[0].1.calls.len(), 2);
    assert_eq!(l.origins[0].1.calls[1].argument_spans, vec![at(240, 244), at(246, 251)]);
    match &l.program.items[2] {
        Item::FunctionDefinition(d) => {
            assert_eq!(d.name, "$generic_0_count");
            match &d.parameters[0].type_ref.kind {
                TypeRefKind::Array { element, length } => {
                    assert_eq!(*length, 2);
                    assert_eq!(element.kind, TypeRefKind::Named("bool".to_string()));
                },
                _ => panic!("expected an array"),
            }
            match &d.body[0].kind {
                StmtKind::Return { value: Some(v) } => match &v.kind {
                    ExprKind::Integer(literal) => {
                        assert_eq!(literal.digits(), "2");
                        assert_eq!(literal.explicit_type(), Some(IntegerType::I64));
                    },
                    _ => panic!("expected an integer"),
                },
                _ => panic!("expected a return"),
            }
        },
        _ => panic!("expected an instance"),
    }
}

#[test]
fn array_type_arguments_are_keyed_by_element_and_length() {
    let l = lowered(vec![
        echo(),
        print(generic_call(
            "echo",
            vec![GenericArgument::Type(array_of(named("i64", 61), "COUNT", 66))],
            vec![],
            55,
        )),
    ])
    .unwrap();
    assert_eq!(l.origins[0].1.arguments, vec!["[i64; 2]".to_string()]);
    assert_eq!(l.array_length_uses.len(), 1);
    assert_eq!(l.array_length_uses[0].length, 2);
    assert_eq!(l.array_length_uses[0].name, "COUNT");
    assert_eq!(l.array_length_uses[0].span, at(66, 71));
}

#[test]
fn programs_without_generics_keep_their_items() {
    let plain = function("f", vec![], vec![parameter("x", named("i64", 10), 8)], named("i64", 20), vec![ret(variable("x", 30))], 0);
    let l = lowered(vec![plain, print(call("f", vec![integer("1", 45)], 43))]).unwrap();
    assert!(l.origins.is_empty());
    assert_eq!(l.program.items.len(), 2);
    assert_eq!(called(&l.program.items[1]), "f");
}

#[test]
fn template_checks_report_the_first_problem() {
    let twice = function("f", vec![generic("T", false, 5), generic("T", false, 8)], vec![], named("T", 20), vec![], 0);
    assert_eq!(error(vec![twice]), "conflicting generic parameter T");
    let shadow = function("f", vec![generic("T", false, 5)], vec![parameter("T", named("T", 12), 10)], named("T", 20), vec![], 0);
    assert_eq!(error(vec![shadow]), "conflicting function parameter T");
    let repeated = function(
        "f",
        vec![generic("T", false, 5)],
        vec![parameter("x", named("T", 12), 10), parameter("x", named("T", 16), 14)],
        named("T", 20),
        vec![],
        0,
    );
    assert_eq!(error(vec![repeated]), "conflicting function parameter x");
    let builtin = function("f", vec![generic("i64", false, 5)], vec![], named("i64", 20), vec![], 0);
    assert_eq!(error(vec![builtin]), "conflicting generic parameter i64");
    let entry = function("main", vec![generic("T", false, 5)], vec![], named("T", 20), vec![], 0);
    let message = error(vec![entry]);
    assert_eq!(message, "this function cannot have generic parameters");
    let global = function("f", vec![generic("LIMIT", false, 5)], vec![], named("i64", 20), vec![], 0);
    let limit = Item::ConstantDefinition(ConstantDefinition {
        name: "LIMIT".to_string(),
        name_span: at(50, 55),
        type_ref: named("i64", 57),
        value: integer("1", 63),
        span: at(44, 65),
    });
    assert_eq!(error(vec![global, limit]), "conflicting generic parameter LIMIT");
    let first = function("g", vec![], vec![], named("i64", 20), vec![], 0);
    let second = function("g", vec![], vec![], named("i64", 70), vec![], 50);
    match lowered(vec![first, second]) {
        Err(e) => {
            assert_eq!(e.message, "duplicate function g");
            assert_eq!(e.span, Some(at(53, 54)));
        },
        Ok(_) => panic!("expected an error"),
    }
}

#[test]
fn calls_must_match_the_template() {
    assert_eq!(
        error(vec![echo(), print(call("echo", vec![integer("1", 60)], 55))]),
        "generic function echo requires explicit ::<...> arguments"
    );
    assert_eq!(
        error(vec![echo(), print(generic_call("echo", vec![type_argument("i64", 60), length_argument(2, 65)], vec![], 55))]),
        "echo requires 1 generic arguments"
    );
    let plain = function("f", vec![], vec![], named("i64", 20), vec![], 0);
    assert_eq!(
        error(vec![plain, print(generic_call("f", vec![type_argument("i64", 60)], vec![], 55))]),
        "f is not a generic function"
    );
    assert_eq!(
        error(vec![echo(), print(generic_call("echo", vec![length_argument(2, 60)], vec![], 55))]),
        "generic type argument requires a type"
    );
    assert_eq!(
        error(vec![echo(), print(generic_call("echo", vec![type_argument("infer", 60)], vec![], 55))]),
        "generic argument requires a known concrete type"
    );
    assert_eq!(
        error(vec![echo(), print(generic_call("echo", vec![type_argument("Missing", 60)], vec![], 55))]),
        "generic argument requires a known concrete type"
    );
}

#[test]
fn generic_lengths_need_positive_integer_constants() {
    assert_eq!(
        error(vec![count(), print(generic_call("count", vec![type_argument("bool", 210), type_argument("n", 216)], vec![], 200))]),
        "array length requires a constant: unknown constant n"
    );
    assert_eq!(
        error(vec![count(), print(generic_call("count", vec![type_argument("bool", 210), type_argument("FLAG", 216)], vec![], 200))]),
        "array length constant must have an integer type"
    );
}

#[test]
fn misused_parameters_and_recursion_are_reported_where_instantiated() {
    let recursive = function(
        "f",
        vec![generic("T", false, 5)],
        vec![parameter("v", named("T", 12), 10)],
        named("T", 20),
        vec![ret(generic_call("f", vec![type_argument("T", 33)], vec![variable("v", 36)], 30))],
        0,
    );
    assert_eq!(
        error(vec![recursive, print(generic_call("f", vec![type_argument("i64", 60)], vec![integer("1", 66)], 55))]),
        "recursive generic function f; while instantiating f at source=0 bytes=55..75"
    );
    let as_value = function("f", vec![generic("T", false, 5)], vec![], named("i64", 20), vec![ret(variable("T", 30))], 0);
    let message = error(vec![as_value, print(generic_call("f", vec![type_argument("i64", 60)], vec![], 55))]);
    assert_eq!(message, "type parameter used as a value; while instantiating f at source=0 bytes=55..75");
    let as_type = function("f", vec![generic("N", true, 5)], vec![parameter("v", named("N", 12), 10)], named("i64", 20), vec![], 0);
    let message = error(vec![as_type, print(generic_call("f", vec![length_argument(2, 60)], vec![], 55))]);
    assert_eq!(message, "length parameter used as a type; while instantiating f at source=0 bytes=55..75");
    let hiding = function(
        "f",
        vec![generic("T", false, 5)],
        vec![],
        named("i64", 20),
        vec![Stmt {
            kind: StmtKind::Binding { mutable: false, name: "T".to_string(), type_spec: TypeSpec::Infer, value: integer("1", 30) },
            span: at(26, 32),
        }],
        0,
    );
    let message = error(vec![hiding, print(generic_call("f", vec![type_argument("i64", 60)], vec![], 55))]);
    assert_eq!(message, "binding conflicts with generic parameter T; while instantiating f at source=0 bytes=55..75");
}

#[test]
fn context_names_the_instantiations_of_the_enclosing_template() {
    let l = lowered(vec![
        echo(),
        print(generic_call("echo", vec![type_argument("i64", 60)], vec![integer("1", 66)], 55)),
        print(generic_call("echo", vec![type_argument("u8", 95)], vec![integer("3", 100)], 90)),
    ])
    .unwrap();
    let inside = l.context(Diagnostic::new("bad".to_string(), at(31, 32)));
    assert_eq!(
        inside.message,
        "bad; generic instantiations: echo::<i64> called at source=0 bytes=55..75; echo::<u8> called at source=0 bytes=90..110"
    );
    assert_eq!(inside.span, Some(at(31, 32)));
    let outside = l.context(Diagnostic::new("bad".to_string(), at(60, 61)));
    assert_eq!(outside.message, "bad");
    let elsewhere = l.context(Diagnostic { message: "bad".to_string(), span: Some(Span { source: SourceId { index: 1 }, start: 31, end: 32 }) });
    assert_eq!(elsewhere.message, "bad");
    let nowhere = l.context(Diagnostic { message: "bad".to_string(), span: None });
    assert_eq!(nowhere, Diagnostic { message: "bad".to_string(), span: None });
}

#[test]
fn an_uncalled_template_makes_no_instance() {
    let plain = function("f", vec![], vec![parameter("x", named("i64", 10), 8)], named("i64", 20), vec![ret(variable("x", 30))], 0);
    let l = lowered(vec![echo(), plain, print(call("f", vec![integer("1", 45)], 43))]).unwrap();
    assert!(l.origins.is_empty());
    assert!(l.types.is_empty());
    assert_eq!(l.program.items.len(), 2);
}

#[test]
fn a_plain_call_of_a_template_is_refused() {
    assert_eq!(
        error(vec![echo(), print(call("echo", vec![integer("1", 45)], 43))]),
        "generic function echo requires explicit ::<...> arguments"
    );
}
