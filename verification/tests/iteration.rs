use cerune_lang::ast::{BinaryOp, Expr, ExprKind, IterationBinding, Stmt, StmtKind, TypeSpec};
use cerune_lang::iteration::expand;
use cerune_lang::source::{SourceId, Span};

fn at(source: usize, start: usize) -> Span {
    Span { source: SourceId { index: source }, start, end: start + 1 }
}

fn binding(name: &str, span: Span) -> IterationBinding {
    IterationBinding { mutable: false, name: name.to_string(), type_spec: TypeSpec::Infer, span }
}

fn variable_name(e: &Expr) -> &str {
    match &e.kind {
        ExprKind::Variable(name) => name,
        other => panic!("not a variable: {other:?}"),
    }
}

#[test]
fn array_iteration_becomes_a_snapshot_and_a_counted_loop() {
    let header = at(3, 17);
    let operand = Expr { kind: ExprKind::Array(vec![]), span: at(3, 30) };
    let body = vec![Stmt { kind: StmtKind::Break, span: at(3, 40) }];
    let statement = Stmt {
        kind: StmtKind::ForEach {
            index: Some(binding("i", at(3, 22))),
            element: binding("v", at(3, 25)),
            value: operand,
            body,
            header_span: header,
        },
        span: at(3, 10),
    };
    let expanded = expand(statement);
    assert_eq!(expanded.len(), 3);
    match &expanded[0].kind {
        StmtKind::Binding { mutable, name, type_spec, value } => {
            assert!(!mutable);
            assert_eq!(name, "$for_in_snapshot_3_17");
            assert_eq!(type_spec, &TypeSpec::Infer);
            assert_eq!(value.span, at(3, 30));
        },
        other => panic!("{other:?}"),
    }
    assert_eq!(expanded[0].span, at(3, 30));
    match &expanded[1].kind {
        StmtKind::Binding { name, value, .. } => {
            assert_eq!(name, "$for_in_length_3_17");
            match &value.kind {
                ExprKind::Call { name, arguments, .. } => {
                    assert_eq!(name, "array_len");
                    assert_eq!(variable_name(&arguments[0]), "$for_in_snapshot_3_17");
                },
                other => panic!("{other:?}"),
            }
        },
        other => panic!("{other:?}"),
    }
    match &expanded[2].kind {
        StmtKind::For { initializer, condition, update, body } => {
            match &initializer.kind {
                StmtKind::Binding { mutable, name, value, .. } => {
                    assert!(mutable);
                    assert_eq!(name, "$for_in_cursor_3_17");
                    match &value.kind {
                        ExprKind::Integer(lit) => assert_eq!(lit.digits(), "0"),
                        other => panic!("{other:?}"),
                    }
                },
                other => panic!("{other:?}"),
            }
            match &condition.kind {
                ExprKind::Binary { op, left, right } => {
                    assert_eq!(*op, BinaryOp::Less);
                    assert_eq!(variable_name(left), "$for_in_cursor_3_17");
                    assert_eq!(variable_name(right), "$for_in_length_3_17");
                },
                other => panic!("{other:?}"),
            }
            match &update.kind {
                StmtKind::Assignment { target, .. } => assert_eq!(target.name, "$for_in_cursor_3_17"),
                other => panic!("{other:?}"),
            }
            assert_eq!(body.len(), 3);
            match &body[0].kind {
                StmtKind::Binding { name, value, .. } => {
                    assert_eq!(name, "i");
                    assert_eq!(variable_name(value), "$for_in_cursor_3_17");
                },
                other => panic!("{other:?}"),
            }
            match &body[1].kind {
                StmtKind::Binding { name, value, .. } => {
                    assert_eq!(name, "v");
                    assert!(matches!(value.kind, ExprKind::Index { .. }));
                },
                other => panic!("{other:?}"),
            }
            assert_eq!(body[2].kind, StmtKind::Break);
        },
        other => panic!("{other:?}"),
    }
    assert_eq!(expanded[2].span, at(3, 10));
}

#[test]
fn without_an_index_only_the_element_is_bound() {
    let statement = Stmt {
        kind: StmtKind::ForEach {
            index: None,
            element: binding("v", at(0, 5)),
            value: Expr { kind: ExprKind::Variable("values".to_string()), span: at(0, 9) },
            body: vec![],
            header_span: at(0, 123),
        },
        span: at(0, 0),
    };
    let expanded = expand(statement);
    match &expanded[2].kind {
        StmtKind::For { body, .. } => assert_eq!(body.len(), 1),
        other => panic!("{other:?}"),
    }
    match &expanded[0].kind {
        StmtKind::Binding { name, .. } => assert_eq!(name, "$for_in_snapshot_0_123"),
        other => panic!("{other:?}"),
    }
}
