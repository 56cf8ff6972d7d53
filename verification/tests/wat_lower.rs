use cerune_lang::ir::{
    BindingId, Expr, ExprKind, FieldDefinition, Program, Statement, StatementKind, Type, TypeDefinition, TypeId,
};
use cerune_lang::types::IntegerType;
use cerune_lang::wat_lower::{
    array_element_size, array_element_type, collect_locations, field_offset, scalar_type, type_size, ArrayElement,
    Local, Location, Type as WasmType,
};

fn array(element: Type, length: usize) -> Type {
    Type::Array { element: Box::new(element), length }
}

fn field(name: &str, ty: Type) -> FieldDefinition {
    FieldDefinition { name: name.to_string(), ty }
}

fn program() -> Program {
    Program {
        type_definitions: vec![
            TypeDefinition {
                name: "A".to_string(),
                fields: vec![field("x", Type::Integer(IntegerType::I64)), field("y", array(Type::Bool, 3))],
            },
            TypeDefinition {
                name: "B".to_string(),
                fields: vec![field("a", Type::Named(TypeId(0))), field("z", Type::F64)],
            },
        ],
        function_definitions: vec![],
        statements: vec![],
    }
}

fn binding(id: usize, name: &str, ty: Type) -> Statement {
    Statement {
        kind: StatementKind::Binding {
            id: BindingId(id),
            name: name.to_string(),
            ty,
            value: Expr { ty: Type::Bool, kind: ExprKind::Boolean(true) },
        },
    }
}

#[test]
fn sizes_add_up_fields_and_array_elements() {
    let p = program();
    assert_eq!(type_size(&p, &Type::String), 8);
    assert_eq!(type_size(&p, &Type::Named(TypeId(0))), 32);
    assert_eq!(type_size(&p, &Type::Named(TypeId(1))), 40);
    assert_eq!(type_size(&p, &array(Type::Named(TypeId(0)), 2)), 64);
    assert_eq!(field_offset(&p, 1, 0), 0);
    assert_eq!(field_offset(&p, 1, 1), 32);
    assert_eq!(field_offset(&p, 1, 2), 40);
}

#[test]
fn array_elements_keep_their_shape_and_size() {
    let p = program();
    let shape = array_element_type(&array(Type::Integer(IntegerType::U8), 4));
    assert_eq!(shape, ArrayElement::Array { element: Box::new(ArrayElement::Scalar(WasmType::I64)), length: 4 });
    assert_eq!(array_element_size(&p, &shape), 32);
    assert_eq!(array_element_size(&p, &ArrayElement::Named(1)), 40);
    assert_eq!(scalar_type(&Type::F32), WasmType::F32);
    assert_eq!(scalar_type(&Type::Integer(IntegerType::U64)), WasmType::I64);
}

#[test]
fn bindings_get_locals_or_memory() {
    let p = program();
    let statements = vec![
        binding(1, "x", Type::Integer(IntegerType::I64)),
        Statement {
            kind: StatementKind::While {
                condition: Expr { ty: Type::Bool, kind: ExprKind::Boolean(true) },
                body: vec![binding(2, "b", Type::Named(TypeId(1))), binding(5, "x", Type::Bool)],
            },
        },
        binding(6, "grid", array(Type::Named(TypeId(0)), 2)),
    ];
    let mut locals: Vec<Local> = Vec::new();
    let mut locations: Vec<(BindingId, Location)> = Vec::new();
    let mut counts: Vec<(String, usize)> = Vec::new();
    let mut next = 100;
    collect_locations(&statements, &p, &mut locals, &mut locations, &mut counts, &mut next);
    let names: Vec<&str> = locals.iter().map(|l| l.name.as_str()).collect();
    assert_eq!(names, vec!["x", "x_5"]);
    assert_eq!(locals[1].ty, WasmType::Bool);
    assert_eq!(next, 100 + 40 + 64);
    assert_eq!(locations.len(), 4);
    match &locations[1] {
        (BindingId(2), Location::Aggregate { type_id, address }) => {
            assert_eq!(*type_id, 1);
            assert_eq!(*address, 100);
        },
        _ => panic!("expected the product in memory"),
    }
    match &locations[3] {
        (BindingId(6), Location::Array { element, length, address }) => {
            assert_eq!(*element, ArrayElement::Named(0));
            assert_eq!(*length, 2);
            assert_eq!(*address, 140);
        },
        _ => panic!("expected the array in memory"),
    }
    match &locations[2] {
        (BindingId(5), Location::Scalar(name)) => assert_eq!(name, "x_5"),
        _ => panic!("expected a local"),
    }
    assert_eq!(counts, vec![("x".to_string(), 2)]);
}
