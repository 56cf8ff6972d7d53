//! Copies of syntax trees. Generic instantiation works on copies of the
//! templates, so that every instance is rewritten on its own.
use vstd::prelude::*;
use crate::ast::{
    ArrayLengthRef, AssignmentProjection, AssignmentTarget, ConstantDefinition, Expr, ExprKind,
    FieldDefinition, FieldValue, FunctionDefinition, GenericArgument, GenericCall, GenericParameter,
    IntegerLiteral, Item, IterationBinding, MatchArm, Parameter, PatternField, ReturnTypeRef, Stmt,
    StmtKind, TypeDefinition, TypeRef, TypeRefKind, TypeSpec, VariantDefinition,
};

use crate::array_lengths::{constant_free, expr_lengths_resolved, fields_lengths_resolved, item_lengths_resolved, stmt_lengths_resolved};
use crate::generics::{expr_ordinary, stmt_ordinary, function_ordinary, Argument};
use crate::array_lengths::{expr_lengths_sound, fields_lengths_sound, item_lengths_sound, stmt_lengths_sound, type_lengths_sound, EvaluatedConstant};
use crate::array_lengths::dependency_leaf;
use crate::array_lengths::{expr_lengths_integral, fields_lengths_integral, item_lengths_integral, stmt_lengths_integral, type_lengths_integral};
use crate::generics::same_declaration;
use crate::array_lengths::{
    arms_uses, expr_uses, exprs_uses, field_uses, field_values_uses, fields_uses, item_uses, parameters_uses,
    projections_uses, stmt_uses, stmts_uses, variants_uses,
};

verus! {

proof fn lemma_exprs_uses_pointwise(c: Seq<EvaluatedConstant>, a: Seq<Expr>, b: Seq<Expr>)
    requires
        a.len() == b.len(),
        forall|i: int| #![trigger a[i]] 0 <= i < a.len() ==> expr_uses(c, a[i]) == expr_uses(c, b[i]),
    ensures
        exprs_uses(c, a) == exprs_uses(c, b),
    decreases a.len(),
{
    if a.len() > 0 {
        assert forall|i: int| #![trigger a.drop_last()[i]] 0 <= i < a.drop_last().len() implies expr_uses(c, a.drop_last()[i]) == expr_uses(c, b.drop_last()[i]) by {
            assert(a.drop_last()[i] == a[i]);
            assert(b.drop_last()[i] == b[i]);
        }
        lemma_exprs_uses_pointwise(c, a.drop_last(), b.drop_last());
        assert(a.last() == a[a.len() - 1]);
        assert(b.last() == b[b.len() - 1]);
    }
}

proof fn lemma_field_values_uses_pointwise(c: Seq<EvaluatedConstant>, a: Seq<FieldValue>, b: Seq<FieldValue>)
    requires
        a.len() == b.len(),
        forall|i: int| #![trigger a[i]] 0 <= i < a.len() ==> expr_uses(c, a[i].value) == expr_uses(c, b[i].value),
    ensures
        field_values_uses(c, a) == field_values_uses(c, b),
    decreases a.len(),
{
    if a.len() > 0 {
        assert forall|i: int| #![trigger a.drop_last()[i]] 0 <= i < a.drop_last().len() implies expr_uses(c, a.drop_last()[i].value) == expr_uses(c, b.drop_last()[i].value) by {
            assert(a.drop_last()[i] == a[i]);
            assert(b.drop_last()[i] == b[i]);
        }
        lemma_field_values_uses_pointwise(c, a.drop_last(), b.drop_last());
        assert(a.last() == a[a.len() - 1]);
        assert(b.last() == b[b.len() - 1]);
    }
}

proof fn lemma_projections_uses_pointwise(c: Seq<EvaluatedConstant>, a: Seq<AssignmentProjection>, b: Seq<AssignmentProjection>)
    requires
        a.len() == b.len(),
        forall|i: int| #![trigger a[i]] 0 <= i < a.len() ==> expr_uses(c, a[i]->index) == expr_uses(c, b[i]->index),
    ensures
        projections_uses(c, a) == projections_uses(c, b),
    decreases a.len(),
{
    if a.len() > 0 {
        assert forall|i: int| #![trigger a.drop_last()[i]] 0 <= i < a.drop_last().len() implies expr_uses(c, a.drop_last()[i]->index) == expr_uses(c, b.drop_last()[i]->index) by {
            assert(a.drop_last()[i] == a[i]);
            assert(b.drop_last()[i] == b[i]);
        }
        lemma_projections_uses_pointwise(c, a.drop_last(), b.drop_last());
        assert(a.last() == a[a.len() - 1]);
        assert(b.last() == b[b.len() - 1]);
    }
}

proof fn lemma_stmts_uses_pointwise(c: Seq<EvaluatedConstant>, a: Seq<Stmt>, b: Seq<Stmt>)
    requires
        a.len() == b.len(),
        forall|i: int| #![trigger a[i]] 0 <= i < a.len() ==> stmt_uses(c, a[i]) == stmt_uses(c, b[i]),
    ensures
        stmts_uses(c, a) == stmts_uses(c, b),
    decreases a.len(),
{
    if a.len() > 0 {
        assert forall|i: int| #![trigger a.drop_last()[i]] 0 <= i < a.drop_last().len() implies stmt_uses(c, a.drop_last()[i]) == stmt_uses(c, b.drop_last()[i]) by {
            assert(a.drop_last()[i] == a[i]);
            assert(b.drop_last()[i] == b[i]);
        }
        lemma_stmts_uses_pointwise(c, a.drop_last(), b.drop_last());
        assert(a.last() == a[a.len() - 1]);
        assert(b.last() == b[b.len() - 1]);
    }
}

proof fn lemma_arms_uses_pointwise(c: Seq<EvaluatedConstant>, a: Seq<MatchArm>, b: Seq<MatchArm>)
    requires
        a.len() == b.len(),
        forall|i: int| #![trigger a[i]] 0 <= i < a.len() ==> stmts_uses(c, a[i].body@) == stmts_uses(c, b[i].body@),
    ensures
        arms_uses(c, a) == arms_uses(c, b),
    decreases a.len(),
{
    if a.len() > 0 {
        assert forall|i: int| #![trigger a.drop_last()[i]] 0 <= i < a.drop_last().len() implies stmts_uses(c, a.drop_last()[i].body@) == stmts_uses(c, b.drop_last()[i].body@) by {
            assert(a.drop_last()[i] == a[i]);
            assert(b.drop_last()[i] == b[i]);
        }
        lemma_arms_uses_pointwise(c, a.drop_last(), b.drop_last());
        assert(a.last() == a[a.len() - 1]);
        assert(b.last() == b[b.len() - 1]);
    }
}

proof fn lemma_fields_uses_pointwise(c: Seq<EvaluatedConstant>, a: Seq<FieldDefinition>, b: Seq<FieldDefinition>)
    requires
        a.len() == b.len(),
        forall|i: int| #![trigger a[i]] 0 <= i < a.len() ==> field_uses(c, a[i]) == field_uses(c, b[i]),
    ensures
        fields_uses(c, a) == fields_uses(c, b),
    decreases a.len(),
{
    if a.len() > 0 {
        assert forall|i: int| #![trigger a.drop_last()[i]] 0 <= i < a.drop_last().len() implies field_uses(c, a.drop_last()[i]) == field_uses(c, b.drop_last()[i]) by {
            assert(a.drop_last()[i] == a[i]);
            assert(b.drop_last()[i] == b[i]);
        }
        lemma_fields_uses_pointwise(c, a.drop_last(), b.drop_last());
        assert(a.last() == a[a.len() - 1]);
        assert(b.last() == b[b.len() - 1]);
    }
}

proof fn lemma_variants_uses_pointwise(c: Seq<EvaluatedConstant>, a: Seq<VariantDefinition>, b: Seq<VariantDefinition>)
    requires
        a.len() == b.len(),
        forall|i: int| #![trigger a[i]] 0 <= i < a.len() ==> fields_uses(c, a[i].fields@) == fields_uses(c, b[i].fields@),
    ensures
        variants_uses(c, a) == variants_uses(c, b),
    decreases a.len(),
{
    if a.len() > 0 {
        assert forall|i: int| #![trigger a.drop_last()[i]] 0 <= i < a.drop_last().len() implies fields_uses(c, a.drop_last()[i].fields@) == fields_uses(c, b.drop_last()[i].fields@) by {
            assert(a.drop_last()[i] == a[i]);
            assert(b.drop_last()[i] == b[i]);
        }
        lemma_variants_uses_pointwise(c, a.drop_last(), b.drop_last());
        assert(a.last() == a[a.len() - 1]);
        assert(b.last() == b[b.len() - 1]);
    }
}

proof fn lemma_parameters_uses_pointwise(c: Seq<EvaluatedConstant>, a: Seq<Parameter>, b: Seq<Parameter>)
    requires
        a.len() == b.len(),
        forall|i: int| #![trigger a[i]] 0 <= i < a.len() ==> a[i].type_ref == b[i].type_ref,
    ensures
        parameters_uses(c, a) == parameters_uses(c, b),
    decreases a.len(),
{
    if a.len() > 0 {
        assert forall|i: int| #![trigger a.drop_last()[i]] 0 <= i < a.drop_last().len() implies a.drop_last()[i].type_ref == b.drop_last()[i].type_ref by {
            assert(a.drop_last()[i] == a[i]);
            assert(b.drop_last()[i] == b[i]);
        }
        lemma_parameters_uses_pointwise(c, a.drop_last(), b.drop_last());
        assert(a.last() == a[a.len() - 1]);
        assert(b.last() == b[b.len() - 1]);
    }
}

/// A copy of a written type.
pub fn copy_type_ref(ty: &TypeRef) -> (r: TypeRef)
    ensures
        r == *ty,
    decreases ty,
{
    let kind = match &ty.kind {
        TypeRefKind::Named(name) => TypeRefKind::Named(name.clone()),
        TypeRefKind::Array { element, length } => TypeRefKind::Array {
            element: Box::new(copy_type_ref(element)),
            length: *length,
        },
        TypeRefKind::ArrayConstant { element, constant } => TypeRefKind::ArrayConstant {
            element: Box::new(copy_type_ref(element)),
            constant: Box::new(ArrayLengthRef { name: constant.name.clone(), span: constant.span }),
        },
    };
    TypeRef { kind, span: ty.span }
}

pub fn copy_type_spec(spec: &TypeSpec) -> (r: TypeSpec)
    ensures
        r == *spec,
{
    match spec {
        TypeSpec::Explicit(ty) => TypeSpec::Explicit(copy_type_ref(ty)),
        TypeSpec::Infer => TypeSpec::Infer,
    }
}

fn copy_literal(literal: &IntegerLiteral) -> (r: IntegerLiteral)
    ensures
        r.spec_digits() == literal.spec_digits(),
        r.spec_explicit_type() == literal.spec_explicit_type(),
{
    let digits = String::from_str(literal.digits());
    match literal.explicit_type() {
        Some(ty) => IntegerLiteral::with_type(digits, ty),
        None => IntegerLiteral::decimal(digits),
    }
}

fn copy_pattern_field(field: &PatternField) -> (r: PatternField)
    ensures
        r.name@ == field.name@ && r.binding@ == field.binding@,
{
    PatternField {
        name: field.name.clone(),
        name_span: field.name_span,
        binding: field.binding.clone(),
        binding_span: field.binding_span,
    }
}

/// A copy of an expression.
pub fn copy_expr(expr: &Expr, Ghost(items): Ghost<Seq<Item>>, Ghost(ev): Ghost<Seq<EvaluatedConstant>>, Ghost(gsubs): Ghost<Seq<(String, Argument)>>, Ghost(gtemplates): Ghost<Seq<FunctionDefinition>>) -> (r: Expr)
    ensures
        r.span == expr.span,
        expr_lengths_resolved(*expr) ==> expr_lengths_resolved(r),
        expr_ordinary(gsubs, gtemplates, *expr) ==> expr_ordinary(gsubs, gtemplates, r),
        expr_lengths_integral(items, ev, *expr) ==> expr_lengths_integral(items, ev, r),
        expr_lengths_sound(items, ev, *expr) ==> expr_lengths_sound(items, ev, r),
        expr_uses(ev, r) == expr_uses(ev, *expr),
        dependency_leaf(r) == dependency_leaf(*expr),
    decreases expr,
{
    let kind = match &expr.kind {
        ExprKind::GenericCall(call) => ExprKind::GenericCall(Box::new(copy_generic_call(call, Ghost(items), Ghost(ev), Ghost(gsubs), Ghost(gtemplates)))),
        ExprKind::Logical { op, left, right } => ExprKind::Logical {
            op: *op,
            left: Box::new(copy_expr(left, Ghost(items), Ghost(ev), Ghost(gsubs), Ghost(gtemplates))),
            right: Box::new(copy_expr(right, Ghost(items), Ghost(ev), Ghost(gsubs), Ghost(gtemplates))),
        },
        ExprKind::Convert { mode, target, value, syntax } => ExprKind::Convert {
            mode: *mode,
            target: copy_type_ref(target),
            value: Box::new(copy_expr(value, Ghost(items), Ghost(ev), Ghost(gsubs), Ghost(gtemplates))),
            syntax: *syntax,
        },
        ExprKind::Boolean(b) => ExprKind::Boolean(*b),
        ExprKind::String(s) => ExprKind::String(s.clone()),
        ExprKind::Integer(literal) => ExprKind::Integer(copy_literal(literal)),
        ExprKind::Float { text, explicit_type } => ExprKind::Float {
            text: text.clone(),
            explicit_type: *explicit_type,
        },
        ExprKind::Variable(name) => ExprKind::Variable(name.clone()),
        ExprKind::Construct { type_path, type_path_span, base, fields } => ExprKind::Construct {
            type_path: type_path.clone(),
            type_path_span: *type_path_span,
            base: match base {
                Some(b) => Some(Box::new(copy_expr(b, Ghost(items), Ghost(ev), Ghost(gsubs), Ghost(gtemplates)))),
                None => None,
            },
            fields: copy_field_values(fields, Ghost(items), Ghost(ev), Ghost(gsubs), Ghost(gtemplates)),
        },
        ExprKind::FieldAccess { base, field_name, field_name_span } => ExprKind::FieldAccess {
            base: Box::new(copy_expr(base, Ghost(items), Ghost(ev), Ghost(gsubs), Ghost(gtemplates))),
            field_name: field_name.clone(),
            field_name_span: *field_name_span,
        },
        ExprKind::Array(values) => ExprKind::Array(copy_exprs(values, Ghost(items), Ghost(ev), Ghost(gsubs), Ghost(gtemplates))),
        ExprKind::Index { base, index } => ExprKind::Index {
            base: Box::new(copy_expr(base, Ghost(items), Ghost(ev), Ghost(gsubs), Ghost(gtemplates))),
            index: Box::new(copy_expr(index, Ghost(items), Ghost(ev), Ghost(gsubs), Ghost(gtemplates))),
        },
        ExprKind::Call { name, name_span, arguments } => ExprKind::Call {
            name: name.clone(),
            name_span: *name_span,
            arguments: copy_exprs(arguments, Ghost(items), Ghost(ev), Ghost(gsubs), Ghost(gtemplates)),
        },
        ExprKind::Unary { op, value } => ExprKind::Unary { op: *op, value: Box::new(copy_expr(value, Ghost(items), Ghost(ev), Ghost(gsubs), Ghost(gtemplates))) },
        ExprKind::Binary { op, left, right } => ExprKind::Binary {
            op: *op,
            left: Box::new(copy_expr(left, Ghost(items), Ghost(ev), Ghost(gsubs), Ghost(gtemplates))),
            right: Box::new(copy_expr(right, Ghost(items), Ghost(ev), Ghost(gsubs), Ghost(gtemplates))),
        },
    };
    Expr { kind, span: expr.span }
}

pub fn copy_exprs(values: &Vec<Expr>, Ghost(items): Ghost<Seq<Item>>, Ghost(ev): Ghost<Seq<EvaluatedConstant>>, Ghost(gsubs): Ghost<Seq<(String, Argument)>>, Ghost(gtemplates): Ghost<Seq<FunctionDefinition>>) -> (r: Vec<Expr>)
    ensures
        r@.len() == values@.len(),
        (forall|i: int| 0 <= i < values@.len() ==> expr_lengths_resolved(#[trigger] values@[i])) ==> forall|i: int|
            0 <= i < r@.len() ==> expr_lengths_resolved(#[trigger] r@[i]),
        (forall|i: int| 0 <= i < values@.len() ==> expr_ordinary(gsubs, gtemplates, #[trigger] values@[i])) ==> forall|i: int|
            0 <= i < r@.len() ==> expr_ordinary(gsubs, gtemplates, #[trigger] r@[i]),
        (forall|i: int| 0 <= i < values@.len() ==> expr_lengths_integral(items, ev, #[trigger] values@[i])) ==> forall|i: int|
            0 <= i < r@.len() ==> expr_lengths_integral(items, ev, #[trigger] r@[i]),
        (forall|i: int| 0 <= i < values@.len() ==> expr_lengths_sound(items, ev, #[trigger] values@[i])) ==> forall|i: int|
            0 <= i < r@.len() ==> expr_lengths_sound(items, ev, #[trigger] r@[i]),
        exprs_uses(ev, r@) == exprs_uses(ev, values@),
    decreases values,
{
    let ghost all = forall|i: int| 0 <= i < values@.len() ==> expr_lengths_resolved(#[trigger] values@[i]);
    let ghost all_o = forall|i: int| 0 <= i < values@.len() ==> expr_ordinary(gsubs, gtemplates, #[trigger] values@[i]);
    let ghost all_i = forall|i: int| 0 <= i < values@.len() ==> expr_lengths_integral(items, ev, #[trigger] values@[i]);
    let ghost all_s = forall|i: int| 0 <= i < values@.len() ==> expr_lengths_sound(items, ev, #[trigger] values@[i]);
    let mut r: Vec<Expr> = Vec::new();
    let mut i: usize = 0;
    while i < values.len()
        invariant
            i <= values@.len(),
            r@.len() == i,
            all == forall|i: int| 0 <= i < values@.len() ==> expr_lengths_resolved(#[trigger] values@[i]),
            all_o == forall|i: int| 0 <= i < values@.len() ==> expr_ordinary(gsubs, gtemplates, #[trigger] values@[i]),
            all_i == forall|i: int| 0 <= i < values@.len() ==> expr_lengths_integral(items, ev, #[trigger] values@[i]),
            all_s == forall|i: int| 0 <= i < values@.len() ==> expr_lengths_sound(items, ev, #[trigger] values@[i]),
            all ==> forall|j: int| 0 <= j < r@.len() ==> expr_lengths_resolved(#[trigger] r@[j]),
            all_o ==> forall|j: int| 0 <= j < r@.len() ==> expr_ordinary(gsubs, gtemplates, #[trigger] r@[j]),
            all_i ==> forall|j: int| 0 <= j < r@.len() ==> expr_lengths_integral(items, ev, #[trigger] r@[j]),
            all_s ==> forall|j: int| 0 <= j < r@.len() ==> expr_lengths_sound(items, ev, #[trigger] r@[j]),
            forall|j: int| 0 <= j < r@.len() ==> expr_uses(ev, #[trigger] r@[j]) == expr_uses(ev, values@[j]),
        decreases values@.len() - i,
    {
        r.push(copy_expr(&values[i], Ghost(items), Ghost(ev), Ghost(gsubs), Ghost(gtemplates)));
        i = i + 1;
    }
    proof {
        lemma_exprs_uses_pointwise(ev, r@, values@);
    }
    r
}

fn copy_field_values(fields: &Vec<FieldValue>, Ghost(items): Ghost<Seq<Item>>, Ghost(ev): Ghost<Seq<EvaluatedConstant>>, Ghost(gsubs): Ghost<Seq<(String, Argument)>>, Ghost(gtemplates): Ghost<Seq<FunctionDefinition>>) -> (r: Vec<FieldValue>)
    ensures
        r@.len() == fields@.len(),
        (forall|i: int| 0 <= i < fields@.len() ==> expr_lengths_resolved(#[trigger] fields@[i].value)) ==> forall|i: int|
            0 <= i < r@.len() ==> expr_lengths_resolved(#[trigger] r@[i].value),
        (forall|i: int| 0 <= i < fields@.len() ==> expr_ordinary(gsubs, gtemplates, #[trigger] fields@[i].value)) ==> forall|i: int|
            0 <= i < r@.len() ==> expr_ordinary(gsubs, gtemplates, #[trigger] r@[i].value),
        (forall|i: int| 0 <= i < fields@.len() ==> expr_lengths_integral(items, ev, #[trigger] fields@[i].value)) ==> forall|i: int|
            0 <= i < r@.len() ==> expr_lengths_integral(items, ev, #[trigger] r@[i].value),
        (forall|i: int| 0 <= i < fields@.len() ==> expr_lengths_sound(items, ev, #[trigger] fields@[i].value)) ==> forall|i: int|
            0 <= i < r@.len() ==> expr_lengths_sound(items, ev, #[trigger] r@[i].value),
        field_values_uses(ev, r@) == field_values_uses(ev, fields@),
    decreases fields,
{
    let ghost all = forall|i: int| 0 <= i < fields@.len() ==> expr_lengths_resolved(#[trigger] fields@[i].value);
    let ghost all_o = forall|i: int| 0 <= i < fields@.len() ==> expr_ordinary(gsubs, gtemplates, #[trigger] fields@[i].value);
    let ghost all_i = forall|i: int| 0 <= i < fields@.len() ==> expr_lengths_integral(items, ev, #[trigger] fields@[i].value);
    let ghost all_s = forall|i: int| 0 <= i < fields@.len() ==> expr_lengths_sound(items, ev, #[trigger] fields@[i].value);
    let mut r: Vec<FieldValue> = Vec::new();
    let mut i: usize = 0;
    while i < fields.len()
        invariant
            i <= fields@.len(),
            r@.len() == i,
            all == forall|i: int| 0 <= i < fields@.len() ==> expr_lengths_resolved(#[trigger] fields@[i].value),
            all_o == forall|i: int| 0 <= i < fields@.len() ==> expr_ordinary(gsubs, gtemplates, #[trigger] fields@[i].value),
            all_i == forall|i: int| 0 <= i < fields@.len() ==> expr_lengths_integral(items, ev, #[trigger] fields@[i].value),
            all_s == forall|i: int| 0 <= i < fields@.len() ==> expr_lengths_sound(items, ev, #[trigger] fields@[i].value),
            all ==> forall|j: int| 0 <= j < r@.len() ==> expr_lengths_resolved(#[trigger] r@[j].value),
            all_o ==> forall|j: int| 0 <= j < r@.len() ==> expr_ordinary(gsubs, gtemplates, #[trigger] r@[j].value),
            all_i ==> forall|j: int| 0 <= j < r@.len() ==> expr_lengths_integral(items, ev, #[trigger] r@[j].value),
            all_s ==> forall|j: int| 0 <= j < r@.len() ==> expr_lengths_sound(items, ev, #[trigger] r@[j].value),
            forall|j: int| 0 <= j < r@.len() ==> expr_uses(ev, (#[trigger] r@[j]).value) == expr_uses(ev, fields@[j].value),
        decreases fields@.len() - i,
    {
        let f = &fields[i];
        r.push(FieldValue {
            generated: f.generated,
            name: f.name.clone(),
            name_span: f.name_span,
            value: copy_expr(&f.value, Ghost(items), Ghost(ev), Ghost(gsubs), Ghost(gtemplates)),
            span: f.span,
        });
        i = i + 1;
    }
    proof {
        lemma_field_values_uses_pointwise(ev, r@, fields@);
    }
    r
}

fn copy_generic_call(call: &GenericCall, Ghost(items): Ghost<Seq<Item>>, Ghost(ev): Ghost<Seq<EvaluatedConstant>>, Ghost(gsubs): Ghost<Seq<(String, Argument)>>, Ghost(gtemplates): Ghost<Seq<FunctionDefinition>>) -> (r: GenericCall)
    ensures
        r.name@ == call.name@,
    decreases call,
{
    let mut generic_arguments: Vec<GenericArgument> = Vec::new();
    let mut i: usize = 0;
    while i < call.generic_arguments.len()
        invariant
            i <= call.generic_arguments@.len(),
        decreases call.generic_arguments@.len() - i,
    {
        generic_arguments.push(match &call.generic_arguments[i] {
            GenericArgument::Type(ty) => GenericArgument::Type(copy_type_ref(ty)),
            GenericArgument::Length { value, span } => GenericArgument::Length { value: *value, span: *span },
        });
        i = i + 1;
    }
    GenericCall {
        name: call.name.clone(),
        name_span: call.name_span,
        generic_arguments,
        arguments: copy_exprs(&call.arguments, Ghost(items), Ghost(ev), Ghost(gsubs), Ghost(gtemplates)),
    }
}

fn copy_binding(binding: &IterationBinding) -> (r: IterationBinding)
    ensures
        r.name@ == binding.name@,
        r.type_spec == binding.type_spec,
{
    IterationBinding {
        mutable: binding.mutable,
        name: binding.name.clone(),
        type_spec: copy_type_spec(&binding.type_spec),
        span: binding.span,
    }
}

/// A copy of a statement.
#[verifier::loop_isolation(false)]
pub fn copy_stmt(statement: &Stmt, Ghost(items): Ghost<Seq<Item>>, Ghost(ev): Ghost<Seq<EvaluatedConstant>>, Ghost(gsubs): Ghost<Seq<(String, Argument)>>, Ghost(gtemplates): Ghost<Seq<FunctionDefinition>>) -> (r: Stmt)
    ensures
        r.span == statement.span,
        stmt_lengths_resolved(*statement) ==> stmt_lengths_resolved(r),
        stmt_ordinary(gsubs, gtemplates, *statement) ==> stmt_ordinary(gsubs, gtemplates, r),
        stmt_lengths_integral(items, ev, *statement) ==> stmt_lengths_integral(items, ev, r),
        stmt_lengths_sound(items, ev, *statement) ==> stmt_lengths_sound(items, ev, r),
        stmt_uses(ev, r) == stmt_uses(ev, *statement),
    decreases statement,
{
    let kind = match &statement.kind {
        StmtKind::ForEach { index, element, value, body, header_span } => StmtKind::ForEach {
            index: match index {
                Some(b) => Some(copy_binding(b)),
                None => None,
            },
            element: copy_binding(element),
            value: copy_expr(value, Ghost(items), Ghost(ev), Ghost(gsubs), Ghost(gtemplates)),
            body: copy_stmts(body, Ghost(items), Ghost(ev), Ghost(gsubs), Ghost(gtemplates)),
            header_span: *header_span,
        },
        StmtKind::Match { value, arms } => {
            let mut copies: Vec<MatchArm> = Vec::new();
            let mut i: usize = 0;
            assert(decreases_to!(*statement => *arms));
            while i < arms.len()
                invariant
                    i <= arms@.len(),
                    copies@.len() == i,
                    decreases_to!(*statement => *arms),
                    stmt_lengths_resolved(*statement) ==> forall|a: int, j: int|
                        0 <= a < copies@.len() && 0 <= j < copies@[a].body@.len() ==> stmt_lengths_resolved(
                            #[trigger] copies@[a].body@[j],
                        ),
                    stmt_ordinary(gsubs, gtemplates, *statement) ==> forall|a: int, j: int|
                        0 <= a < copies@.len() && 0 <= j < copies@[a].body@.len() ==> stmt_ordinary(gsubs, gtemplates, 
                            #[trigger] copies@[a].body@[j],
                        ),
                    forall|a: int, f: int|
                        0 <= a < copies@.len() && 0 <= f < copies@[a].fields@.len() ==> (#[trigger] copies@[a].fields@[f]).binding@
                            == arms@[a].fields@[f].binding@,
                    forall|a: int| 0 <= a < copies@.len() ==> (#[trigger] copies@[a]).fields@.len() == arms@[a].fields@.len(),
                    stmt_lengths_integral(items, ev, *statement) ==> forall|a: int, j: int|
                        0 <= a < copies@.len() && 0 <= j < copies@[a].body@.len() ==> stmt_lengths_integral(items, ev, 
                            #[trigger] copies@[a].body@[j],
                        ),
                    stmt_lengths_sound(items, ev, *statement) ==> forall|a: int, j: int|
                        0 <= a < copies@.len() && 0 <= j < copies@[a].body@.len() ==> stmt_lengths_sound(
                            items,
                            ev,
                            #[trigger] copies@[a].body@[j],
                        ),
                    forall|a: int| 0 <= a < copies@.len() ==> stmts_uses(ev, (#[trigger] copies@[a]).body@) == stmts_uses(ev, arms@[a].body@),
                decreases arms@.len() - i,
            {
                let arm = &arms[i];
                let mut fields: Vec<PatternField> = Vec::new();
                let mut k: usize = 0;
                while k < arm.fields.len()
                    invariant
                        k <= arm.fields@.len(),
                        fields@.len() == k,
                        forall|q: int| 0 <= q < k ==> (#[trigger] fields@[q]).binding@ == arm.fields@[q].binding@,
                    decreases arm.fields@.len() - k,
                {
                    let ghost before_fields = fields@;
                    fields.push(copy_pattern_field(&arm.fields[k]));
                    proof {
                        assert forall|q: int| 0 <= q < k + 1 implies (#[trigger] fields@[q]).binding@ == arm.fields@[q].binding@ by {
                            if q < k {
                                assert(fields@[q] == before_fields[q]);
                            }
                        }
                    }
                    k = k + 1;
                }
                proof {
                    assert(decreases_to!(*arms => arms[i as int]));
                    assert(decreases_to!(arms[i as int] => arm.body));
                    assert(decreases_to!(*statement => arm.body));
                }
                let ghost before = copies@;
                copies.push(MatchArm {
                    variant: arm.variant.clone(),
                    variant_span: arm.variant_span,
                    fields,
                    body: copy_stmts(&arm.body, Ghost(items), Ghost(ev), Ghost(gsubs), Ghost(gtemplates)),
                    span: arm.span,
                });
                proof {
                    assert forall|a: int| 0 <= a < copies@.len() implies stmts_uses(ev, (#[trigger] copies@[a]).body@) == stmts_uses(ev, arms@[a].body@) by {
                        if a < before.len() {
                            assert(copies@[a] == before[a]);
                        }
                    }
                    if stmt_lengths_resolved(*statement) {
                        assert forall|a: int, j: int|
                            0 <= a < copies@.len() && 0 <= j < copies@[a].body@.len() implies stmt_lengths_resolved(
                                #[trigger] copies@[a].body@[j],
                            ) by {
                            if a < before.len() {
                                assert(copies@[a] == before[a]);
                            } else {
                                assert(forall|j2: int| 0 <= j2 < arm.body@.len() ==> stmt_lengths_resolved(#[trigger] arm.body@[j2]));
                            }
                        }
                    }
                    assert forall|a: int, f: int|
                        0 <= a < copies@.len() && 0 <= f < copies@[a].fields@.len() implies (#[trigger] copies@[a].fields@[f]).binding@
                            == arms@[a].fields@[f].binding@ by {
                        if a < before.len() {
                            assert(copies@[a] == before[a]);
                        }
                    }
                    assert forall|a: int| 0 <= a < copies@.len() implies (#[trigger] copies@[a]).fields@.len() == arms@[a].fields@.len() by {
                        if a < before.len() {
                            assert(copies@[a] == before[a]);
                        }
                    }
                    if stmt_ordinary(gsubs, gtemplates, *statement) {
                        assert forall|a: int, j: int|
                            0 <= a < copies@.len() && 0 <= j < copies@[a].body@.len() implies stmt_ordinary(gsubs, gtemplates, 
                                #[trigger] copies@[a].body@[j],
                            ) by {
                            if a < before.len() {
                                assert(copies@[a] == before[a]);
                            } else {
                                assert(forall|j2: int| 0 <= j2 < arm.body@.len() ==> stmt_ordinary(gsubs, gtemplates, #[trigger] arm.body@[j2]));
                            }
                        }
                    }
                    if stmt_lengths_integral(items, ev, *statement) {
                        assert forall|a: int, j: int|
                            0 <= a < copies@.len() && 0 <= j < copies@[a].body@.len() implies stmt_lengths_integral(items, ev, 
                                #[trigger] copies@[a].body@[j],
                            ) by {
                            if a < before.len() {
                                assert(copies@[a] == before[a]);
                            } else {
                                assert(forall|j2: int| 0 <= j2 < arm.body@.len() ==> stmt_lengths_integral(items, ev, #[trigger] arm.body@[j2]));
                            }
                        }
                    }
                    if stmt_lengths_sound(items, ev, *statement) {
                        assert forall|a: int, j: int|
                            0 <= a < copies@.len() && 0 <= j < copies@[a].body@.len() implies stmt_lengths_sound(items, ev, 
                                #[trigger] copies@[a].body@[j],
                            ) by {
                            if a < before.len() {
                                assert(copies@[a] == before[a]);
                            } else {
                                assert(forall|j2: int| 0 <= j2 < arm.body@.len() ==> stmt_lengths_sound(items, ev, #[trigger] arm.body@[j2]));
                            }
                        }
                    }
                }
                i = i + 1;
            }
            proof {
                lemma_arms_uses_pointwise(ev, copies@, arms@);
            }
            StmtKind::Match { value: copy_expr(value, Ghost(items), Ghost(ev), Ghost(gsubs), Ghost(gtemplates)), arms: copies }
        },
        StmtKind::Block(body) => StmtKind::Block(copy_stmts(body, Ghost(items), Ghost(ev), Ghost(gsubs), Ghost(gtemplates))),
        StmtKind::Binding { mutable, name, type_spec, value } => StmtKind::Binding {
            mutable: *mutable,
            name: name.clone(),
            type_spec: copy_type_spec(type_spec),
            value: copy_expr(value, Ghost(items), Ghost(ev), Ghost(gsubs), Ghost(gtemplates)),
        },
        StmtKind::Assignment { target, value } => {
            let mut projections: Vec<AssignmentProjection> = Vec::new();
            let mut i: usize = 0;
            while i < target.projections.len()
                invariant
                    i <= target.projections@.len(),
                    projections@.len() == i,
                    stmt_lengths_resolved(*statement) ==> forall|j: int|
                        0 <= j < projections@.len() ==> expr_lengths_resolved((#[trigger] projections@[j])->index),
                    stmt_ordinary(gsubs, gtemplates, *statement) ==> forall|j: int|
                        0 <= j < projections@.len() ==> expr_ordinary(gsubs, gtemplates, (#[trigger] projections@[j])->index),
                    stmt_lengths_integral(items, ev, *statement) ==> forall|j: int|
                        0 <= j < projections@.len() ==> expr_lengths_integral(items, ev, (#[trigger] projections@[j])->index),
                    stmt_lengths_sound(items, ev, *statement) ==> forall|j: int|
                        0 <= j < projections@.len() ==> expr_lengths_sound(items, ev, (#[trigger] projections@[j])->index),
                    forall|j: int| 0 <= j < projections@.len() ==> expr_uses(ev, (#[trigger] projections@[j])->index) == expr_uses(
                        ev,
                        target.projections@[j]->index,
                    ),
                decreases target.projections@.len() - i,
            {
                let ghost before = projections@;
                match &target.projections[i] {
                    AssignmentProjection::Index { index, span } => {
                        projections.push(AssignmentProjection::Index { index: copy_expr(index, Ghost(items), Ghost(ev), Ghost(gsubs), Ghost(gtemplates)), span: *span });
                    },
                }
                proof {
                    assert forall|j: int| 0 <= j < projections@.len() implies expr_uses(ev, (#[trigger] projections@[j])->index)
                        == expr_uses(ev, target.projections@[j]->index) by {
                        if j < before.len() {
                            assert(projections@[j] == before[j]);
                        }
                    }
                    if stmt_lengths_resolved(*statement) {
                        assert(expr_lengths_resolved(target.projections@[i as int]->index));
                        assert forall|j: int| 0 <= j < projections@.len() implies expr_lengths_resolved(
                            (#[trigger] projections@[j])->index,
                        ) by {
                            if j < before.len() {
                                assert(projections@[j] == before[j]);
                            }
                        }
                    }
                    if stmt_ordinary(gsubs, gtemplates, *statement) {
                        assert(expr_ordinary(gsubs, gtemplates, target.projections@[i as int]->index));
                        assert forall|j: int| 0 <= j < projections@.len() implies expr_ordinary(gsubs, gtemplates, 
                            (#[trigger] projections@[j])->index,
                        ) by {
                            if j < before.len() {
                                assert(projections@[j] == before[j]);
                            }
                        }
                    }
                    if stmt_lengths_integral(items, ev, *statement) {
                        assert(expr_lengths_integral(items, ev, target.projections@[i as int]->index));
                        assert forall|j: int| 0 <= j < projections@.len() implies expr_lengths_integral(items, ev, 
                            (#[trigger] projections@[j])->index,
                        ) by {
                            if j < before.len() {
                                assert(projections@[j] == before[j]);
                            }
                        }
                    }
                    if stmt_lengths_sound(items, ev, *statement) {
                        assert(expr_lengths_sound(items, ev, target.projections@[i as int]->index));
                        assert forall|j: int| 0 <= j < projections@.len() implies expr_lengths_sound(items, ev, 
                            (#[trigger] projections@[j])->index,
                        ) by {
                            if j < before.len() {
                                assert(projections@[j] == before[j]);
                            }
                        }
                    }
                }
                i = i + 1;
            }
            proof {
                lemma_projections_uses_pointwise(ev, projections@, target.projections@);
            }
            StmtKind::Assignment {
                target: AssignmentTarget {
                    name: target.name.clone(),
                    name_span: target.name_span,
                    projections,
                    span: target.span,
                },
                value: copy_expr(value, Ghost(items), Ghost(ev), Ghost(gsubs), Ghost(gtemplates)),
            }
        },
        StmtKind::Print { value } => StmtKind::Print { value: copy_expr(value, Ghost(items), Ghost(ev), Ghost(gsubs), Ghost(gtemplates)) },
        StmtKind::Call { value } => StmtKind::Call { value: copy_expr(value, Ghost(items), Ghost(ev), Ghost(gsubs), Ghost(gtemplates)) },
        StmtKind::Return { value } => StmtKind::Return {
            value: match value {
                Some(v) => Some(copy_expr(v, Ghost(items), Ghost(ev), Ghost(gsubs), Ghost(gtemplates))),
                None => None,
            },
        },
        StmtKind::If { condition, then_body, else_body } => StmtKind::If {
            condition: copy_expr(condition, Ghost(items), Ghost(ev), Ghost(gsubs), Ghost(gtemplates)),
            then_body: copy_stmts(then_body, Ghost(items), Ghost(ev), Ghost(gsubs), Ghost(gtemplates)),
            else_body: copy_stmts(else_body, Ghost(items), Ghost(ev), Ghost(gsubs), Ghost(gtemplates)),
        },
        StmtKind::While { condition, body } => StmtKind::While {
            condition: copy_expr(condition, Ghost(items), Ghost(ev), Ghost(gsubs), Ghost(gtemplates)),
            body: copy_stmts(body, Ghost(items), Ghost(ev), Ghost(gsubs), Ghost(gtemplates)),
        },
        StmtKind::For { initializer, condition, update, body } => StmtKind::For {
            initializer: Box::new(copy_stmt(initializer, Ghost(items), Ghost(ev), Ghost(gsubs), Ghost(gtemplates))),
            condition: copy_expr(condition, Ghost(items), Ghost(ev), Ghost(gsubs), Ghost(gtemplates)),
            update: Box::new(copy_stmt(update, Ghost(items), Ghost(ev), Ghost(gsubs), Ghost(gtemplates))),
            body: copy_stmts(body, Ghost(items), Ghost(ev), Ghost(gsubs), Ghost(gtemplates)),
        },
        StmtKind::Break => StmtKind::Break,
        StmtKind::Continue => StmtKind::Continue,
    };
    Stmt { kind, span: statement.span }
}

pub fn copy_stmts(body: &Vec<Stmt>, Ghost(items): Ghost<Seq<Item>>, Ghost(ev): Ghost<Seq<EvaluatedConstant>>, Ghost(gsubs): Ghost<Seq<(String, Argument)>>, Ghost(gtemplates): Ghost<Seq<FunctionDefinition>>) -> (r: Vec<Stmt>)
    ensures
        r@.len() == body@.len(),
        (forall|i: int| 0 <= i < body@.len() ==> stmt_lengths_resolved(#[trigger] body@[i])) ==> forall|i: int|
            0 <= i < r@.len() ==> stmt_lengths_resolved(#[trigger] r@[i]),
        (forall|i: int| 0 <= i < body@.len() ==> stmt_ordinary(gsubs, gtemplates, #[trigger] body@[i])) ==> forall|i: int|
            0 <= i < r@.len() ==> stmt_ordinary(gsubs, gtemplates, #[trigger] r@[i]),
        (forall|i: int| 0 <= i < body@.len() ==> stmt_lengths_integral(items, ev, #[trigger] body@[i])) ==> forall|i: int|
            0 <= i < r@.len() ==> stmt_lengths_integral(items, ev, #[trigger] r@[i]),
        (forall|i: int| 0 <= i < body@.len() ==> stmt_lengths_sound(items, ev, #[trigger] body@[i])) ==> forall|i: int|
            0 <= i < r@.len() ==> stmt_lengths_sound(items, ev, #[trigger] r@[i]),
        stmts_uses(ev, r@) == stmts_uses(ev, body@),
    decreases body,
{
    let ghost all = forall|i: int| 0 <= i < body@.len() ==> stmt_lengths_resolved(#[trigger] body@[i]);
    let ghost all_o = forall|i: int| 0 <= i < body@.len() ==> stmt_ordinary(gsubs, gtemplates, #[trigger] body@[i]);
    let ghost all_i = forall|i: int| 0 <= i < body@.len() ==> stmt_lengths_integral(items, ev, #[trigger] body@[i]);
    let ghost all_s = forall|i: int| 0 <= i < body@.len() ==> stmt_lengths_sound(items, ev, #[trigger] body@[i]);
    let mut r: Vec<Stmt> = Vec::new();
    let mut i: usize = 0;
    while i < body.len()
        invariant
            i <= body@.len(),
            r@.len() == i,
            all == forall|i: int| 0 <= i < body@.len() ==> stmt_lengths_resolved(#[trigger] body@[i]),
            all_o == forall|i: int| 0 <= i < body@.len() ==> stmt_ordinary(gsubs, gtemplates, #[trigger] body@[i]),
            all_i == forall|i: int| 0 <= i < body@.len() ==> stmt_lengths_integral(items, ev, #[trigger] body@[i]),
            all_s == forall|i: int| 0 <= i < body@.len() ==> stmt_lengths_sound(items, ev, #[trigger] body@[i]),
            all ==> forall|j: int| 0 <= j < r@.len() ==> stmt_lengths_resolved(#[trigger] r@[j]),
            all_o ==> forall|j: int| 0 <= j < r@.len() ==> stmt_ordinary(gsubs, gtemplates, #[trigger] r@[j]),
            all_i ==> forall|j: int| 0 <= j < r@.len() ==> stmt_lengths_integral(items, ev, #[trigger] r@[j]),
            all_s ==> forall|j: int| 0 <= j < r@.len() ==> stmt_lengths_sound(items, ev, #[trigger] r@[j]),
            forall|j: int| 0 <= j < r@.len() ==> stmt_uses(ev, #[trigger] r@[j]) == stmt_uses(ev, body@[j]),
        decreases body@.len() - i,
    {
        r.push(copy_stmt(&body[i], Ghost(items), Ghost(ev), Ghost(gsubs), Ghost(gtemplates)));
        i = i + 1;
    }
    proof {
        lemma_stmts_uses_pointwise(ev, r@, body@);
    }
    r
}

/// A copy of a function definition.
pub fn copy_function(d: &FunctionDefinition, Ghost(items): Ghost<Seq<Item>>, Ghost(ev): Ghost<Seq<EvaluatedConstant>>, Ghost(gsubs): Ghost<Seq<(String, Argument)>>, Ghost(gtemplates): Ghost<Seq<FunctionDefinition>>) -> (r: FunctionDefinition)
    ensures
        r.name@ == d.name@,
        r.span == d.span,
        r.generic_parameters@.len() == d.generic_parameters@.len(),
        item_lengths_resolved(Item::FunctionDefinition(*d)) ==> item_lengths_resolved(Item::FunctionDefinition(r)),
        function_ordinary(gsubs, gtemplates, *d) ==> function_ordinary(gsubs, gtemplates, r),
        item_lengths_integral(items, ev, Item::FunctionDefinition(*d)) ==> item_lengths_integral(items, ev, Item::FunctionDefinition(r)),
        item_lengths_sound(items, ev, Item::FunctionDefinition(*d)) ==> item_lengths_sound(items, ev, Item::FunctionDefinition(r)),
        item_uses(ev, Item::FunctionDefinition(r)) == item_uses(ev, Item::FunctionDefinition(*d)),
{
    let mut generic_parameters: Vec<GenericParameter> = Vec::new();
    let mut i: usize = 0;
    while i < d.generic_parameters.len()
        invariant
            i <= d.generic_parameters@.len(),
            generic_parameters@.len() == i,
        decreases d.generic_parameters@.len() - i,
    {
        let p = &d.generic_parameters[i];
        generic_parameters.push(GenericParameter { name: p.name.clone(), span: p.span, length: p.length });
        i = i + 1;
    }
    let mut parameters: Vec<Parameter> = Vec::new();
    let mut i: usize = 0;
    while i < d.parameters.len()
        invariant
            i <= d.parameters@.len(),
            parameters@.len() == i,
            forall|j: int| 0 <= j < i ==> (#[trigger] parameters@[j]).type_ref == d.parameters@[j].type_ref,
            forall|j: int| 0 <= j < i ==> (#[trigger] parameters@[j]).name@ == d.parameters@[j].name@,
        decreases d.parameters@.len() - i,
    {
        let p = &d.parameters[i];
        parameters.push(Parameter {
            name: p.name.clone(),
            name_span: p.name_span,
            type_ref: copy_type_ref(&p.type_ref),
            span: p.span,
        });
        i = i + 1;
    }
    proof {
        lemma_parameters_uses_pointwise(ev, parameters@, d.parameters@);
    }
    FunctionDefinition {
        generic_parameters,
        name: d.name.clone(),
        name_span: d.name_span,
        parameters,
        return_type: match &d.return_type {
            ReturnTypeRef::Void(span) => ReturnTypeRef::Void(*span),
            ReturnTypeRef::Value(ty) => ReturnTypeRef::Value(copy_type_ref(ty)),
        },
        body: copy_stmts(&d.body, Ghost(items), Ghost(ev), Ghost(gsubs), Ghost(gtemplates)),
        span: d.span,
    }
}

/// Copies of field definitions.
fn copy_fields(fields: &Vec<FieldDefinition>, Ghost(items): Ghost<Seq<Item>>, Ghost(ev): Ghost<Seq<EvaluatedConstant>>, Ghost(gsubs): Ghost<Seq<(String, Argument)>>, Ghost(gtemplates): Ghost<Seq<FunctionDefinition>>) -> (r: Vec<FieldDefinition>)
    ensures
        r@.len() == fields@.len(),
        fields_lengths_resolved(fields@) ==> fields_lengths_resolved(r@),
        fields_lengths_integral(items, ev, fields@) ==> fields_lengths_integral(items, ev, r@),
        fields_lengths_sound(items, ev, fields@) ==> fields_lengths_sound(items, ev, r@),
        fields_uses(ev, r@) == fields_uses(ev, fields@),
{
    let mut r: Vec<FieldDefinition> = Vec::new();
    let mut i: usize = 0;
    while i < fields.len()
        invariant
            i <= fields@.len(),
            r@.len() == i,
            fields_lengths_resolved(fields@) ==> fields_lengths_resolved(r@),
            fields_lengths_integral(items, ev, fields@) ==> fields_lengths_integral(items, ev, r@),
            fields_lengths_sound(items, ev, fields@) ==> fields_lengths_sound(items, ev, r@),
            forall|j: int| 0 <= j < r@.len() ==> field_uses(ev, #[trigger] r@[j]) == field_uses(ev, fields@[j]),
        decreases fields@.len() - i,
    {
        let ghost before = r@;
        let f = &fields[i];
        r.push(FieldDefinition {
            name: f.name.clone(),
            name_span: f.name_span,
            type_ref: copy_type_ref(&f.type_ref),
            default: match &f.default {
                Some(v) => Some(copy_expr(v, Ghost(items), Ghost(ev), Ghost(gsubs), Ghost(gtemplates))),
                None => None,
            },
            span: f.span,
        });
        proof {
            assert forall|j: int| 0 <= j < r@.len() implies field_uses(ev, #[trigger] r@[j]) == field_uses(ev, fields@[j]) by {
                if j < before.len() {
                    assert(r@[j] == before[j]);
                }
            }
            if fields_lengths_resolved(fields@) {
                assert(constant_free(fields@[i as int].type_ref));
                assert forall|j: int| 0 <= j < r@.len() implies {
                    &&& constant_free((#[trigger] r@[j]).type_ref)
                    &&& (r@[j].default matches Some(v) ==> expr_lengths_resolved(v))
                } by {
                    if j < before.len() {
                        assert(r@[j] == before[j]);
                    }
                }
            }
            if fields_lengths_integral(items, ev, fields@) {
                assert(type_lengths_integral(items, ev, fields@[i as int].type_ref));
                assert forall|j: int| 0 <= j < r@.len() implies {
                    &&& type_lengths_integral(items, ev, (#[trigger] r@[j]).type_ref)
                    &&& (r@[j].default matches Some(v) ==> expr_lengths_integral(items, ev, v))
                } by {
                    if j < before.len() {
                        assert(r@[j] == before[j]);
                    }
                }
            }
            if fields_lengths_sound(items, ev, fields@) {
                assert(type_lengths_sound(items, ev, fields@[i as int].type_ref));
                assert forall|j: int| 0 <= j < r@.len() implies {
                    &&& type_lengths_sound(items, ev, (#[trigger] r@[j]).type_ref)
                    &&& (r@[j].default matches Some(v) ==> expr_lengths_sound(items, ev, v))
                } by {
                    if j < before.len() {
                        assert(r@[j] == before[j]);
                    }
                }
            }
        }
        i = i + 1;
    }
    proof {
        lemma_fields_uses_pointwise(ev, r@, fields@);
    }
    r
}

/// A copy of a top-level item.
#[verifier::loop_isolation(false)]
pub fn copy_item(item: &Item, Ghost(items): Ghost<Seq<Item>>, Ghost(ev): Ghost<Seq<EvaluatedConstant>>, Ghost(gsubs): Ghost<Seq<(String, Argument)>>, Ghost(gtemplates): Ghost<Seq<FunctionDefinition>>) -> (r: Item)
    ensures
        same_declaration(r, *item),
        item_lengths_resolved(*item) ==> item_lengths_resolved(r),
        item_lengths_integral(items, ev, *item) ==> item_lengths_integral(items, ev, r),
        item_lengths_sound(items, ev, *item) ==> item_lengths_sound(items, ev, r),
        item_uses(ev, r) == item_uses(ev, *item),
        item matches Item::ConstantDefinition(d) ==> (r matches Item::ConstantDefinition(e) && e.type_ref == d.type_ref
            && dependency_leaf(e.value) == dependency_leaf(d.value)),
{
    match item {
        Item::ConstantDefinition(d) => Item::ConstantDefinition(ConstantDefinition {
            name: d.name.clone(),
            name_span: d.name_span,
            type_ref: copy_type_ref(&d.type_ref),
            value: copy_expr(&d.value, Ghost(items), Ghost(ev), Ghost(gsubs), Ghost(gtemplates)),
            span: d.span,
        }),
        Item::TypeDefinition(d) => {
            let variants = match &d.variants {
                Some(vs) => {
                    let mut copies: Vec<VariantDefinition> = Vec::new();
                    let mut i: usize = 0;
                    while i < vs.len()
                        invariant
                            i <= vs@.len(),
                            copies@.len() == i,
                            item_lengths_resolved(*item) ==> forall|j: int|
                                0 <= j < i ==> fields_lengths_resolved((#[trigger] copies@[j]).fields@),
                            item_lengths_integral(items, ev, *item) ==> forall|j: int|
                                0 <= j < i ==> fields_lengths_integral(items, ev, (#[trigger] copies@[j]).fields@),
                            item_lengths_sound(items, ev, *item) ==> forall|j: int|
                                0 <= j < i ==> fields_lengths_sound(items, ev, (#[trigger] copies@[j]).fields@),
                            forall|j: int| 0 <= j < i ==> fields_uses(ev, (#[trigger] copies@[j]).fields@) == fields_uses(ev, vs@[j].fields@),
                        decreases vs@.len() - i,
                    {
                        let ghost before = copies@;
                        copies.push(VariantDefinition {
                            name: vs[i].name.clone(),
                            name_span: vs[i].name_span,
                            fields: copy_fields(&vs[i].fields, Ghost(items), Ghost(ev), Ghost(gsubs), Ghost(gtemplates)),
                            span: vs[i].span,
                        });
                        proof {
                            assert forall|j: int| 0 <= j < i + 1 implies fields_uses(ev, (#[trigger] copies@[j]).fields@) == fields_uses(ev, vs@[j].fields@) by {
                                if j < i {
                                    assert(copies@[j] == before[j]);
                                }
                            }
                            if item_lengths_resolved(*item) {
                                assert(fields_lengths_resolved(vs@[i as int].fields@));
                                assert forall|j: int| 0 <= j < i + 1 implies fields_lengths_resolved((#[trigger] copies@[j]).fields@) by {
                                    if j < i {
                                        assert(copies@[j] == before[j]);
                                    }
                                }
                            }
                            if item_lengths_integral(items, ev, *item) {
                                assert(fields_lengths_integral(items, ev, vs@[i as int].fields@));
                                assert forall|j: int| 0 <= j < i + 1 implies fields_lengths_integral(items, ev, (#[trigger] copies@[j]).fields@) by {
                                    if j < i {
                                        assert(copies@[j] == before[j]);
                                    }
                                }
                            }
                            if item_lengths_sound(items, ev, *item) {
                                assert(fields_lengths_sound(items, ev, vs@[i as int].fields@));
                                assert forall|j: int| 0 <= j < i + 1 implies fields_lengths_sound(items, ev, (#[trigger] copies@[j]).fields@) by {
                                    if j < i {
                                        assert(copies@[j] == before[j]);
                                    }
                                }
                            }
                        }
                        i = i + 1;
                    }
                    proof {
                        lemma_variants_uses_pointwise(ev, copies@, vs@);
                    }
                    Some(copies)
                },
                None => None,
            };
            Item::TypeDefinition(TypeDefinition {
                variants,
                name: d.name.clone(),
                name_span: d.name_span,
                fields: copy_fields(&d.fields, Ghost(items), Ghost(ev), Ghost(gsubs), Ghost(gtemplates)),
                span: d.span,
            })
        },
        Item::FunctionDefinition(d) => Item::FunctionDefinition(copy_function(d, Ghost(items), Ghost(ev), Ghost(gsubs), Ghost(gtemplates))),
        Item::Statement(s) => Item::Statement(copy_stmt(s, Ghost(items), Ghost(ev), Ghost(gsubs), Ghost(gtemplates))),
    }
}

} // verus!
