//! Array lengths written as constant names: turning the name into the
//! length that the constant's value gives, and recording where it was used.
use vstd::prelude::*;
use crate::ast::{
    AssignmentProjection, AssignmentTarget, ConstantDefinition, Expr, ExprKind, FieldDefinition,
    FieldValue, FunctionDefinition, IterationBinding, Item, MatchArm, Parameter, Program,
    ReturnTypeRef, Stmt, StmtKind, Type, TypeDefinition, TypeRef, TypeRefKind, TypeSpec,
    VariantDefinition,
};
use crate::copy::copy_item;
use crate::ast::builtin_named;
use crate::diagnostic::Diagnostic;
use crate::generics::same_declaration;
use crate::source::Span;
use crate::text::{contains_text, joined, same_text, starts_with};

verus! {

/// One use of a named constant as an array length: the length it stands
/// for, the constant's name and the range of the name.
#[derive(Debug, Clone, PartialEq, Eq)]
pub struct LengthUse {
    pub length: usize,
    pub name: String,
    pub span: Span,
}

/// The value that a constant evaluated to, as far as array lengths care:
/// an integer, or a value of another type.
#[derive(Debug, Clone, Copy, PartialEq, Eq, Structural)]
pub enum ConstantValue {
    Integer(i128),
    Other,
}

/// A constant of the program with its evaluated value.
#[derive(Debug, Clone, PartialEq, Eq)]
pub struct EvaluatedConstant {
    pub name: String,
    pub value: ConstantValue,
}

/// The value of the first constant named `name`.
pub open spec fn constant_value(constants: Seq<EvaluatedConstant>, name: Seq<char>) -> Option<ConstantValue>
    decreases constants.len(),
{
    if constants.len() == 0 {
        None
    } else if constants[0].name@ == name {
        Some(constants[0].value)
    } else {
        constant_value(constants.skip(1), name)
    }
}

/// The array length that the constant `name` gives, or the reason it gives none.
pub open spec fn constant_length(constants: Seq<EvaluatedConstant>, name: Seq<char>) -> Result<usize, Seq<char>> {
    match constant_value(constants, name) {
        None => Err("array length requires a constant: unknown constant "@ + name),
        Some(ConstantValue::Other) => Err("array length constant must have an integer type"@),
        Some(ConstantValue::Integer(value)) => {
            if value <= 0 {
                Err("array length must be greater than zero"@)
            } else if value > i64::MAX || value > usize::MAX {
                Err("array length is too large"@)
            } else {
                Ok(value as usize)
            }
        },
    }
}

proof fn lemma_constant_value_skip(constants: Seq<EvaluatedConstant>, name: Seq<char>, i: int)
    requires
        0 <= i < constants.len(),
        constants[i].name@ != name,
    ensures
        constant_value(constants.skip(i), name) == constant_value(constants.skip(i + 1), name),
{
    assert(constants.skip(i).skip(1) =~= constants.skip(i + 1));
}

/// The length that the constant `name` gives to an array type written at `span`.
pub fn resolve_length(constants: &Vec<EvaluatedConstant>, name: &str, span: Span) -> (r: Result<usize, Diagnostic>)
    ensures
        constant_length(constants@, name@) matches Ok(n) ==> r == Ok::<usize, Diagnostic>(n),
        constant_length(constants@, name@) matches Err(message)
            ==> r matches Err(e) && e.message@ == message && e.span == Some(span),
{
    let mut i: usize = 0;
    assert(constants@.skip(0) =~= constants@);
    while i < constants.len()
        invariant
            i <= constants@.len(),
            constant_value(constants@, name@) == constant_value(constants@.skip(i as int), name@),
        decreases constants@.len() - i,
    {
        if same_text(constants[i].name.as_str(), name) {
            match constants[i].value {
                ConstantValue::Other => {
                    return Err(Diagnostic::new(String::from_str("array length constant must have an integer type"), span));
                },
                ConstantValue::Integer(value) => {
                    if value <= 0 {
                        return Err(Diagnostic::new(String::from_str("array length must be greater than zero"), span));
                    }
                    if value > i64::MAX as i128 || value > usize::MAX as i128 {
                        return Err(Diagnostic::new(String::from_str("array length is too large"), span));
                    }
                    return Ok(value as usize);
                },
            }
        }
        proof {
            lemma_constant_value_skip(constants@, name@, i as int);
        }
        i = i + 1;
    }
    let mut message = String::from_str("array length requires a constant: unknown constant ");
    message.append(name);
    Err(Diagnostic::new(message, span))
}

/// `ty` names every array length by a number.
pub open spec fn constant_free(ty: TypeRef) -> bool
    decreases ty,
{
    match ty.kind {
        TypeRefKind::Named(_) => true,
        TypeRefKind::Array { element, .. } => constant_free(*element),
        TypeRefKind::ArrayConstant { .. } => false,
    }
}

/// `ty` with every constant array length replaced by its value, or the
/// first failure (element types before the outer length).
pub open spec fn resolved_type(constants: Seq<EvaluatedConstant>, ty: TypeRef) -> Result<TypeRef, (Seq<char>, Span)>
    decreases ty,
{
    match ty.kind {
        TypeRefKind::Named(_) => Ok(ty),
        TypeRefKind::Array { element, length } => match resolved_type(constants, *element) {
            Ok(e) => Ok(TypeRef { kind: TypeRefKind::Array { element: Box::new(e), length }, span: ty.span }),
            Err(p) => Err(p),
        },
        TypeRefKind::ArrayConstant { element, constant } => match resolved_type(constants, *element) {
            Ok(e) => match constant_length(constants, constant.name@) {
                Ok(length) => Ok(TypeRef { kind: TypeRefKind::Array { element: Box::new(e), length }, span: ty.span }),
                Err(message) => Err((message, constant.span)),
            },
            Err(p) => Err(p),
        },
    }
}

/// The constant lengths that resolving `ty` uses, innermost first.
pub open spec fn length_uses(constants: Seq<EvaluatedConstant>, ty: TypeRef) -> Seq<(usize, Seq<char>, Span)>
    decreases ty,
{
    match ty.kind {
        TypeRefKind::Named(_) => Seq::empty(),
        TypeRefKind::Array { element, .. } => length_uses(constants, *element),
        TypeRefKind::ArrayConstant { element, constant } => match constant_length(constants, constant.name@) {
            Ok(length) => length_uses(constants, *element).push((length, constant.name@, constant.span)),
            Err(_) => length_uses(constants, *element),
        },
    }
}

/// The views of recorded length uses.
pub open spec fn use_views(uses: Seq<LengthUse>) -> Seq<(usize, Seq<char>, Span)> {
    uses.map_values(|u: LengthUse| (u.length, u.name@, u.span))
}

/// The length uses that resolving an optional written type records.
pub open spec fn spec_uses(constants: Seq<EvaluatedConstant>, spec: TypeSpec) -> Seq<(usize, Seq<char>, Span)> {
    match spec {
        TypeSpec::Explicit(t) => length_uses(constants, t),
        TypeSpec::Infer => Seq::empty(),
    }
}

/// The length uses that resolving the written types in `e` records, in
/// the order in which they are met.
pub open spec fn expr_uses(constants: Seq<EvaluatedConstant>, e: Expr) -> Seq<(usize, Seq<char>, Span)>
    decreases e,
{
    match e.kind {
        ExprKind::Convert { target, value, .. } => length_uses(constants, target) + expr_uses(constants, *value),
        ExprKind::Construct { base, fields, .. } => match base {
            Some(b) => expr_uses(constants, *b) + field_values_uses(constants, fields@),
            None => field_values_uses(constants, fields@),
        },
        ExprKind::Call { arguments, .. } => exprs_uses(constants, arguments@),
        ExprKind::Array(values) => exprs_uses(constants, values@),
        ExprKind::Unary { value, .. } => expr_uses(constants, *value),
        ExprKind::FieldAccess { base, .. } => expr_uses(constants, *base),
        ExprKind::Binary { left, right, .. } => expr_uses(constants, *left) + expr_uses(constants, *right),
        ExprKind::Logical { left, right, .. } => expr_uses(constants, *left) + expr_uses(constants, *right),
        ExprKind::Index { base, index } => expr_uses(constants, *base) + expr_uses(constants, *index),
        _ => Seq::empty(),
    }
}

/// `expr_uses` of each of `es`, in order.
pub open spec fn exprs_uses(constants: Seq<EvaluatedConstant>, es: Seq<Expr>) -> Seq<(usize, Seq<char>, Span)>
    decreases es,
{
    if es.len() == 0 {
        Seq::empty()
    } else {
        exprs_uses(constants, es.drop_last()) + expr_uses(constants, es.last())
    }
}

/// `expr_uses` of the value of each of `fields`, in order.
pub open spec fn field_values_uses(constants: Seq<EvaluatedConstant>, fields: Seq<FieldValue>) -> Seq<(usize, Seq<char>, Span)>
    decreases fields,
{
    if fields.len() == 0 {
        Seq::empty()
    } else {
        field_values_uses(constants, fields.drop_last()) + expr_uses(constants, fields.last().value)
    }
}

/// `expr_uses` of the index of each of `projections`, in order.
pub open spec fn projections_uses(constants: Seq<EvaluatedConstant>, projections: Seq<AssignmentProjection>) -> Seq<
    (usize, Seq<char>, Span),
>
    decreases projections.len(),
{
    if projections.len() == 0 {
        Seq::empty()
    } else {
        projections_uses(constants, projections.drop_last()) + expr_uses(constants, projections.last()->index)
    }
}

/// The length uses that resolving the written types in `s` records, in
/// the order in which they are met.
pub open spec fn stmt_uses(constants: Seq<EvaluatedConstant>, s: Stmt) -> Seq<(usize, Seq<char>, Span)>
    decreases s,
{
    match s.kind {
        StmtKind::Block(body) => stmts_uses(constants, body@),
        StmtKind::Binding { type_spec, value, .. } => spec_uses(constants, type_spec) + expr_uses(constants, value),
        StmtKind::Assignment { target, value } => projections_uses(constants, target.projections@) + expr_uses(
            constants,
            value,
        ),
        StmtKind::Print { value } => expr_uses(constants, value),
        StmtKind::Call { value } => expr_uses(constants, value),
        StmtKind::Return { value } => match value {
            Some(v) => expr_uses(constants, v),
            None => Seq::empty(),
        },
        StmtKind::If { condition, then_body, else_body } => expr_uses(constants, condition) + stmts_uses(
            constants,
            then_body@,
        ) + stmts_uses(constants, else_body@),
        StmtKind::While { condition, body } => expr_uses(constants, condition) + stmts_uses(constants, body@),
        StmtKind::For { initializer, condition, update, body } => stmt_uses(constants, *initializer) + expr_uses(
            constants,
            condition,
        ) + stmt_uses(constants, *update) + stmts_uses(constants, body@),
        StmtKind::ForEach { index, element, value, body, .. } => index_uses(constants, index) + spec_uses(
            constants,
            element.type_spec,
        ) + expr_uses(constants, value) + stmts_uses(constants, body@),
        StmtKind::Match { value, arms } => expr_uses(constants, value) + arms_uses(constants, arms@),
        StmtKind::Break => Seq::empty(),
        StmtKind::Continue => Seq::empty(),
    }
}

/// The length uses of an optional index binding.
pub open spec fn index_uses(constants: Seq<EvaluatedConstant>, index: Option<IterationBinding>) -> Seq<(usize, Seq<char>, Span)> {
    match index {
        Some(b) => spec_uses(constants, b.type_spec),
        None => Seq::empty(),
    }
}

/// `stmt_uses` of each of `body`, in order.
pub open spec fn stmts_uses(constants: Seq<EvaluatedConstant>, body: Seq<Stmt>) -> Seq<(usize, Seq<char>, Span)>
    decreases body,
{
    if body.len() == 0 {
        Seq::empty()
    } else {
        stmts_uses(constants, body.drop_last()) + stmt_uses(constants, body.last())
    }
}

/// `stmts_uses` of the body of each of `arms`, in order.
pub open spec fn arms_uses(constants: Seq<EvaluatedConstant>, arms: Seq<MatchArm>) -> Seq<(usize, Seq<char>, Span)>
    decreases arms,
{
    if arms.len() == 0 {
        Seq::empty()
    } else {
        arms_uses(constants, arms.drop_last()) + stmts_uses(constants, arms.last().body@)
    }
}

/// The length uses of a field's written type, then of its default value.
pub open spec fn field_uses(constants: Seq<EvaluatedConstant>, f: FieldDefinition) -> Seq<(usize, Seq<char>, Span)> {
    length_uses(constants, f.type_ref) + match f.default {
        Some(v) => expr_uses(constants, v),
        None => Seq::empty(),
    }
}

/// `field_uses` of each of `fields`, in order.
pub open spec fn fields_uses(constants: Seq<EvaluatedConstant>, fields: Seq<FieldDefinition>) -> Seq<(usize, Seq<char>, Span)>
    decreases fields.len(),
{
    if fields.len() == 0 {
        Seq::empty()
    } else {
        fields_uses(constants, fields.drop_last()) + field_uses(constants, fields.last())
    }
}

/// `fields_uses` of the payload of each of `variants`, in order.
pub open spec fn variants_uses(constants: Seq<EvaluatedConstant>, variants: Seq<VariantDefinition>) -> Seq<(usize, Seq<char>, Span)>
    decreases variants.len(),
{
    if variants.len() == 0 {
        Seq::empty()
    } else {
        variants_uses(constants, variants.drop_last()) + fields_uses(constants, variants.last().fields@)
    }
}

/// The length uses of the written type of each of `parameters`, in order.
pub open spec fn parameters_uses(constants: Seq<EvaluatedConstant>, parameters: Seq<Parameter>) -> Seq<(usize, Seq<char>, Span)>
    decreases parameters.len(),
{
    if parameters.len() == 0 {
        Seq::empty()
    } else {
        parameters_uses(constants, parameters.drop_last()) + length_uses(constants, parameters.last().type_ref)
    }
}

proof fn lemma_items_uses_pointwise(c: Seq<EvaluatedConstant>, a: Seq<Item>, b: Seq<Item>)
    requires
        a.len() == b.len(),
        forall|i: int| #![trigger a[i]] 0 <= i < a.len() ==> item_uses(c, a[i]) == item_uses(c, b[i]),
    ensures
        items_uses(c, a) == items_uses(c, b),
    decreases a.len(),
{
    if a.len() > 0 {
        assert forall|i: int| #![trigger a.drop_last()[i]] 0 <= i < a.drop_last().len() implies item_uses(c, a.drop_last()[i])
            == item_uses(c, b.drop_last()[i]) by {
            assert(a.drop_last()[i] == a[i]);
            assert(b.drop_last()[i] == b[i]);
        }
        lemma_items_uses_pointwise(c, a.drop_last(), b.drop_last());
        assert(a.last() == a[a.len() - 1]);
        assert(b.last() == b[b.len() - 1]);
    }
}

/// The length uses that resolving the written types of `item` records, in
/// the order in which they are met.
pub open spec fn item_uses(constants: Seq<EvaluatedConstant>, item: Item) -> Seq<(usize, Seq<char>, Span)> {
    match item {
        Item::ConstantDefinition(d) => length_uses(constants, d.type_ref) + expr_uses(constants, d.value),
        Item::TypeDefinition(d) => fields_uses(constants, d.fields@) + match d.variants {
            Some(vs) => variants_uses(constants, vs@),
            None => Seq::empty(),
        },
        Item::FunctionDefinition(d) => parameters_uses(constants, d.parameters@) + match d.return_type {
            ReturnTypeRef::Value(t) => length_uses(constants, t),
            ReturnTypeRef::Void(_) => Seq::empty(),
        } + stmts_uses(constants, d.body@),
        Item::Statement(s) => stmt_uses(constants, s),
    }
}

/// `item_uses` of each of `items`, in order.
pub open spec fn items_uses(constants: Seq<EvaluatedConstant>, items: Seq<Item>) -> Seq<(usize, Seq<char>, Span)>
    decreases items.len(),
{
    if items.len() == 0 {
        Seq::empty()
    } else {
        items_uses(constants, items.drop_last()) + item_uses(constants, items.last())
    }
}

proof fn lemma_resolved_free_inner(constants: Seq<EvaluatedConstant>, ty: TypeRef)
    requires
        resolved_type(constants, ty) is Ok,
    ensures
        constant_free(resolved_type(constants, ty)->Ok_0),
    decreases ty,
{
    match ty.kind {
        TypeRefKind::Named(_) => {},
        TypeRefKind::Array { element, .. } => lemma_resolved_free_inner(constants, *element),
        TypeRefKind::ArrayConstant { element, .. } => lemma_resolved_free_inner(constants, *element),
    }
}

/// Replaces every constant array length in `ty` by the constant's value,
/// and lists the constants it used.
pub fn resolve_type(constants: &Vec<EvaluatedConstant>, ty: TypeRef) -> (r: Result<(TypeRef, Vec<LengthUse>), Diagnostic>)
    ensures
        resolved_type(constants@, ty) matches Ok(t) ==> r matches Ok((u, uses))
            && u == t && constant_free(u) && use_views(uses@) == length_uses(constants@, ty),
        resolved_type(constants@, ty) matches Err((message, span))
            ==> r matches Err(e) && e.message@ == message && e.span == Some(span),
    decreases ty,
{
    let span = ty.span;
    match ty.kind {
        TypeRefKind::Named(name) => {
            proof {
                assert(use_views(Seq::<LengthUse>::empty()) =~= Seq::empty());
            }
            Ok((TypeRef { kind: TypeRefKind::Named(name), span }, Vec::new()))
        },
        TypeRefKind::Array { element, length } => {
            let (e, uses) = resolve_type(constants, *element)?;
            Ok((TypeRef { kind: TypeRefKind::Array { element: Box::new(e), length }, span }, uses))
        },
        TypeRefKind::ArrayConstant { element, constant } => {
            let (e, mut uses) = resolve_type(constants, *element)?;
            let length = resolve_length(constants, constant.name.as_str(), constant.span)?;
            proof {
                assert(use_views(uses@.push(LengthUse { length, name: constant.name, span: constant.span }))
                    =~= use_views(uses@).push((length, constant.name@, constant.span)));
            }
            uses.push(LengthUse { length, name: constant.name, span: constant.span });
            let r = TypeRef { kind: TypeRefKind::Array { element: Box::new(e), length }, span };
            proof {
                lemma_resolved_free_inner(constants@, ty);
            }
            Ok((r, uses))
        },
    }
}

/// How deeply array types nest in `ty`.
pub open spec fn type_height(ty: TypeRef) -> int
    decreases ty,
{
    match ty.kind {
        TypeRefKind::Named(_) => 0,
        TypeRefKind::Array { element, .. } => 1 + type_height(*element),
        TypeRefKind::ArrayConstant { element, .. } => 1 + type_height(*element),
    }
}

proof fn lemma_type_height_nonnegative(ty: TypeRef)
    ensures
        type_height(ty) >= 0,
    decreases ty,
{
    match ty.kind {
        TypeRefKind::Named(_) => {},
        TypeRefKind::Array { element, .. } => lemma_type_height_nonnegative(*element),
        TypeRefKind::ArrayConstant { element, .. } => lemma_type_height_nonnegative(*element),
    }
}

/// Every recorded use names a constant whose value gives the recorded length.
pub open spec fn uses_agree(constants: Seq<EvaluatedConstant>, uses: Seq<LengthUse>) -> bool {
    forall|i: int| 0 <= i < uses.len()
        ==> constant_length(constants, (#[trigger] uses[i]).name@) == Ok::<usize, Seq<char>>(uses[i].length)
}

/// An optional written type names its array lengths by numbers.
pub open spec fn spec_constant_free(spec: TypeSpec) -> bool {
    spec matches TypeSpec::Explicit(t) ==> constant_free(t)
}

/// Every conversion target in `e` names its array lengths by numbers.
pub open spec fn expr_lengths_resolved(e: Expr) -> bool
    decreases e,
{
    match e.kind {
        ExprKind::Convert { target, value, .. } => constant_free(target) && expr_lengths_resolved(*value),
        ExprKind::Construct { base, fields, .. } => {
            &&& (base matches Some(b) ==> expr_lengths_resolved(*b))
            &&& forall|i: int| 0 <= i < fields@.len() ==> expr_lengths_resolved(#[trigger] fields@[i].value)
        },
        ExprKind::Call { arguments, .. } => forall|i: int|
            0 <= i < arguments@.len() ==> expr_lengths_resolved(#[trigger] arguments@[i]),
        ExprKind::Array(values) => forall|i: int| 0 <= i < values@.len() ==> expr_lengths_resolved(#[trigger] values@[i]),
        ExprKind::Unary { value, .. } => expr_lengths_resolved(*value),
        ExprKind::FieldAccess { base, .. } => expr_lengths_resolved(*base),
        ExprKind::Binary { left, right, .. } => expr_lengths_resolved(*left) && expr_lengths_resolved(*right),
        ExprKind::Logical { left, right, .. } => expr_lengths_resolved(*left) && expr_lengths_resolved(*right),
        ExprKind::Index { base, index } => expr_lengths_resolved(*base) && expr_lengths_resolved(*index),
        _ => true,
    }
}

/// Every written type in `s` names its array lengths by numbers.
pub open spec fn stmt_lengths_resolved(s: Stmt) -> bool
    decreases s,
{
    match s.kind {
        StmtKind::Block(body) => forall|i: int| 0 <= i < body@.len() ==> stmt_lengths_resolved(#[trigger] body@[i]),
        StmtKind::Binding { type_spec, value, .. } => spec_constant_free(type_spec) && expr_lengths_resolved(value),
        StmtKind::Assignment { target, value } => {
            &&& forall|i: int|
                0 <= i < target.projections@.len() ==> expr_lengths_resolved((#[trigger] target.projections@[i])->index)
            &&& expr_lengths_resolved(value)
        },
        StmtKind::Print { value } => expr_lengths_resolved(value),
        StmtKind::Call { value } => expr_lengths_resolved(value),
        StmtKind::Return { value } => value matches Some(v) ==> expr_lengths_resolved(v),
        StmtKind::If { condition, then_body, else_body } => {
            &&& expr_lengths_resolved(condition)
            &&& forall|i: int| 0 <= i < then_body@.len() ==> stmt_lengths_resolved(#[trigger] then_body@[i])
            &&& forall|i: int| 0 <= i < else_body@.len() ==> stmt_lengths_resolved(#[trigger] else_body@[i])
        },
        StmtKind::While { condition, body } => {
            &&& expr_lengths_resolved(condition)
            &&& forall|i: int| 0 <= i < body@.len() ==> stmt_lengths_resolved(#[trigger] body@[i])
        },
        StmtKind::For { initializer, condition, update, body } => {
            &&& stmt_lengths_resolved(*initializer)
            &&& expr_lengths_resolved(condition)
            &&& stmt_lengths_resolved(*update)
            &&& forall|i: int| 0 <= i < body@.len() ==> stmt_lengths_resolved(#[trigger] body@[i])
        },
        StmtKind::ForEach { index, element, value, body, .. } => {
            &&& (index matches Some(b) ==> spec_constant_free(b.type_spec))
            &&& spec_constant_free(element.type_spec)
            &&& expr_lengths_resolved(value)
            &&& forall|i: int| 0 <= i < body@.len() ==> stmt_lengths_resolved(#[trigger] body@[i])
        },
        StmtKind::Match { value, arms } => {
            &&& expr_lengths_resolved(value)
            &&& forall|i: int, j: int|
                0 <= i < arms@.len() && 0 <= j < arms@[i].body@.len()
                    ==> stmt_lengths_resolved(#[trigger] arms@[i].body@[j])
        },
        StmtKind::Break => true,
        StmtKind::Continue => true,
    }
}

/// The fields' types name their lengths by numbers, and so do their defaults.
pub open spec fn fields_lengths_resolved(fields: Seq<FieldDefinition>) -> bool {
    forall|i: int| 0 <= i < fields.len() ==> {
        &&& constant_free((#[trigger] fields[i]).type_ref)
        &&& (fields[i].default matches Some(v) ==> expr_lengths_resolved(v))
    }
}

/// Every written type of `item` names its array lengths by numbers.
pub open spec fn item_lengths_resolved(item: Item) -> bool {
    match item {
        Item::ConstantDefinition(d) => constant_free(d.type_ref) && expr_lengths_resolved(d.value),
        Item::TypeDefinition(d) => {
            &&& fields_lengths_resolved(d.fields@)
            &&& d.variants matches Some(vs) ==> forall|i: int|
                0 <= i < vs@.len() ==> fields_lengths_resolved((#[trigger] vs@[i]).fields@)
        },
        Item::FunctionDefinition(d) => {
            &&& forall|i: int| 0 <= i < d.parameters@.len() ==> constant_free((#[trigger] d.parameters@[i]).type_ref)
            &&& (d.return_type matches ReturnTypeRef::Value(t) ==> constant_free(t))
            &&& forall|i: int| 0 <= i < d.body@.len() ==> stmt_lengths_resolved(#[trigger] d.body@[i])
        },
        Item::Statement(s) => stmt_lengths_resolved(s),
    }
}

/// `b` is the optional written type `a` with its constant lengths resolved.
pub open spec fn resolves_spec_lengths(constants: Seq<EvaluatedConstant>, a: TypeSpec, b: TypeSpec) -> bool {
    match a {
        TypeSpec::Explicit(t) => (b matches TypeSpec::Explicit(u) && resolved_type(constants, t) == Ok::<
            TypeRef,
            (Seq<char>, Span),
        >(u)),
        TypeSpec::Infer => b is Infer,
    }
}

/// `b` is the expression `a` with the constant lengths of its conversion
/// targets resolved, and otherwise unchanged.
pub open spec fn resolves_expr_lengths(constants: Seq<EvaluatedConstant>, a: Expr, b: Expr) -> bool
    decreases a,
{
    &&& a.span == b.span
    &&& match a.kind {
        ExprKind::Convert { mode, target, value, syntax } => (b.kind matches ExprKind::Convert {
            mode: m,
            target: t,
            value: v,
            syntax: x,
        } && m == mode && x == syntax && resolved_type(constants, target) == Ok::<TypeRef, (Seq<char>, Span)>(t)
            && resolves_expr_lengths(constants, *value, *v)),
        ExprKind::Construct { type_path, type_path_span, base, fields } => (b.kind matches ExprKind::Construct {
            type_path: p,
            type_path_span: ps,
            base: bb,
            fields: fs,
        } && p@ == type_path@ && ps == type_path_span && (match base {
            Some(x) => (bb matches Some(y) && resolves_expr_lengths(constants, *x, *y)),
            None => bb is None,
        }) && fs@.len() == fields@.len() && forall|i: int|
            0 <= i < fields@.len() ==> fs@[i].name@ == (#[trigger] fields@[i]).name@ && resolves_expr_lengths(
                constants,
                fields@[i].value,
                fs@[i].value,
            )),
        ExprKind::Call { name, name_span, arguments } => (b.kind matches ExprKind::Call {
            name: n,
            name_span: s,
            arguments: args,
        } && n@ == name@ && s == name_span && args@.len() == arguments@.len() && forall|i: int|
            0 <= i < arguments@.len() ==> resolves_expr_lengths(constants, #[trigger] arguments@[i], args@[i])),
        ExprKind::Array(values) => (b.kind matches ExprKind::Array(vs) && vs@.len() == values@.len() && forall|i: int|
            0 <= i < values@.len() ==> resolves_expr_lengths(constants, #[trigger] values@[i], vs@[i])),
        ExprKind::Unary { op, value } => (b.kind matches ExprKind::Unary { op: o, value: v } && o == op
            && resolves_expr_lengths(constants, *value, *v)),
        ExprKind::FieldAccess { base, field_name, field_name_span } => (b.kind matches ExprKind::FieldAccess {
            base: x,
            field_name: f,
            field_name_span: fs,
        } && f@ == field_name@ && fs == field_name_span && resolves_expr_lengths(constants, *base, *x)),
        ExprKind::Binary { op, left, right } => (b.kind matches ExprKind::Binary { op: o, left: l, right: r } && o == op
            && resolves_expr_lengths(constants, *left, *l) && resolves_expr_lengths(constants, *right, *r)),
        ExprKind::Logical { op, left, right } => (b.kind matches ExprKind::Logical { op: o, left: l, right: r } && o
            == op && resolves_expr_lengths(constants, *left, *l) && resolves_expr_lengths(constants, *right, *r)),
        ExprKind::Index { base, index } => (b.kind matches ExprKind::Index { base: x, index: y }
            && resolves_expr_lengths(constants, *base, *x) && resolves_expr_lengths(constants, *index, *y)),
        _ => b.kind == a.kind,
    }
}

/// `b` is the iteration binding `a` with its written type's lengths resolved.
pub open spec fn resolves_binding_lengths(constants: Seq<EvaluatedConstant>, a: IterationBinding, b: IterationBinding) -> bool {
    &&& b.mutable == a.mutable
    &&& b.name@ == a.name@
    &&& b.span == a.span
    &&& resolves_spec_lengths(constants, a.type_spec, b.type_spec)
}

/// `b` is the statement `a` with the constant lengths of its written types
/// resolved, and otherwise unchanged.
pub open spec fn resolves_stmt_lengths(constants: Seq<EvaluatedConstant>, a: Stmt, b: Stmt) -> bool
    decreases a,
{
    &&& a.span == b.span
    &&& match a.kind {
        StmtKind::Block(body) => (b.kind matches StmtKind::Block(out) && out@.len() == body@.len() && forall|i: int|
            0 <= i < body@.len() ==> resolves_stmt_lengths(constants, #[trigger] body@[i], out@[i])),
        StmtKind::Match { value, arms } => (b.kind matches StmtKind::Match { value: v, arms: out }
            && resolves_expr_lengths(constants, value, v) && out@.len() == arms@.len() && forall|i: int|
            0 <= i < arms@.len() ==> {
                &&& out@[i].variant@ == (#[trigger] arms@[i]).variant@
                &&& out@[i].body@.len() == arms@[i].body@.len()
                &&& forall|j: int|
                    0 <= j < arms@[i].body@.len() ==> resolves_stmt_lengths(
                        constants,
                        #[trigger] arms@[i].body@[j],
                        out@[i].body@[j],
                    )
            }),
        StmtKind::Binding { mutable, name, type_spec, value } => (b.kind matches StmtKind::Binding {
            mutable: m,
            name: n,
            type_spec: t,
            value: v,
        } && m == mutable && n@ == name@ && resolves_spec_lengths(constants, type_spec, t) && resolves_expr_lengths(
            constants,
            value,
            v,
        )),
        StmtKind::Assignment { target, value } => (b.kind matches StmtKind::Assignment { target: t, value: v } && t.name@
            == target.name@ && t.name_span == target.name_span && t.span == target.span && t.projections@.len()
            == target.projections@.len() && (forall|i: int|
            0 <= i < target.projections@.len() ==> resolves_expr_lengths(
                constants,
                (#[trigger] target.projections@[i])->index,
                t.projections@[i]->index,
            )) && resolves_expr_lengths(constants, value, v)),
        StmtKind::Print { value } => (b.kind matches StmtKind::Print { value: v } && resolves_expr_lengths(constants, value, v)),
        StmtKind::Call { value } => (b.kind matches StmtKind::Call { value: v } && resolves_expr_lengths(constants, value, v)),
        StmtKind::Return { value } => (b.kind matches StmtKind::Return { value: v } && match value {
            Some(x) => (v matches Some(y) && resolves_expr_lengths(constants, x, y)),
            None => v is None,
        }),
        StmtKind::If { condition, then_body, else_body } => (b.kind matches StmtKind::If {
            condition: c,
            then_body: t,
            else_body: e,
        } && resolves_expr_lengths(constants, condition, c) && t@.len() == then_body@.len() && e@.len()
            == else_body@.len() && (forall|i: int|
            0 <= i < then_body@.len() ==> resolves_stmt_lengths(constants, #[trigger] then_body@[i], t@[i])) && (forall|
            i: int,
        |
            0 <= i < else_body@.len() ==> resolves_stmt_lengths(constants, #[trigger] else_body@[i], e@[i]))),
        StmtKind::While { condition, body } => (b.kind matches StmtKind::While { condition: c, body: out }
            && resolves_expr_lengths(constants, condition, c) && out@.len() == body@.len() && forall|i: int|
            0 <= i < body@.len() ==> resolves_stmt_lengths(constants, #[trigger] body@[i], out@[i])),
        StmtKind::For { initializer, condition, update, body } => (b.kind matches StmtKind::For {
            initializer: i2,
            condition: c,
            update: u,
            body: out,
        } && resolves_stmt_lengths(constants, *initializer, *i2) && resolves_expr_lengths(constants, condition, c)
            && resolves_stmt_lengths(constants, *update, *u) && out@.len() == body@.len() && forall|i: int|
            0 <= i < body@.len() ==> resolves_stmt_lengths(constants, #[trigger] body@[i], out@[i])),
        StmtKind::ForEach { index, element, value, body, header_span } => (b.kind matches StmtKind::ForEach {
            index: i2,
            element: e2,
            value: v,
            body: out,
            header_span: h,
        } && h == header_span && resolves_binding_lengths(constants, element, e2) && (match index {
            Some(x) => (i2 matches Some(y) && resolves_binding_lengths(constants, x, y)),
            None => i2 is None,
        }) && resolves_expr_lengths(constants, value, v) && out@.len() == body@.len() && forall|i: int|
            0 <= i < body@.len() ==> resolves_stmt_lengths(constants, #[trigger] body@[i], out@[i])),
        StmtKind::Break => b.kind is Break,
        StmtKind::Continue => b.kind is Continue,
    }
}

/// `b` lists the fields `a` with their types' constant lengths resolved and
/// their defaults resolved as expressions.
pub open spec fn resolves_fields_lengths(constants: Seq<EvaluatedConstant>, a: Seq<FieldDefinition>, b: Seq<FieldDefinition>) -> bool {
    &&& b.len() == a.len()
    &&& forall|i: int| 0 <= i < a.len() ==> {
        &&& b[i].name@ == (#[trigger] a[i]).name@
        &&& resolved_type(constants, a[i].type_ref) == Ok::<TypeRef, (Seq<char>, Span)>(b[i].type_ref)
        &&& match a[i].default {
            Some(x) => (b[i].default matches Some(y) && resolves_expr_lengths(constants, x, y)),
            None => b[i].default is None,
        }
    }
}

/// `b` is the item `a` with every written type's constant lengths resolved.
pub open spec fn resolves_item_lengths(constants: Seq<EvaluatedConstant>, a: Item, b: Item) -> bool {
    match a {
        Item::ConstantDefinition(d) => (b matches Item::ConstantDefinition(e) && e.name@ == d.name@ && e.name_span
            == d.name_span && e.span == d.span && resolved_type(constants, d.type_ref) == Ok::<
            TypeRef,
            (Seq<char>, Span),
        >(e.type_ref) && resolves_expr_lengths(constants, d.value, e.value)),
        Item::TypeDefinition(d) => (b matches Item::TypeDefinition(e) && e.name@ == d.name@ && e.name_span == d.name_span
            && e.span == d.span && resolves_fields_lengths(constants, d.fields@, e.fields@) && match d.variants {
            Some(vs) => (e.variants matches Some(ws) && ws@.len() == vs@.len() && forall|i: int|
                0 <= i < vs@.len() ==> ws@[i].name@ == (#[trigger] vs@[i]).name@ && resolves_fields_lengths(
                    constants,
                    vs@[i].fields@,
                    ws@[i].fields@,
                )),
            None => e.variants is None,
        }),
        Item::FunctionDefinition(d) => (b matches Item::FunctionDefinition(e) && e.name@ == d.name@ && e.name_span
            == d.name_span && e.span == d.span && e.generic_parameters == d.generic_parameters && e.parameters@.len()
            == d.parameters@.len() && (forall|i: int|
            0 <= i < d.parameters@.len() ==> e.parameters@[i].name@ == (#[trigger] d.parameters@[i]).name@
                && resolved_type(constants, d.parameters@[i].type_ref) == Ok::<TypeRef, (Seq<char>, Span)>(
                e.parameters@[i].type_ref,
            )) && (match d.return_type {
            ReturnTypeRef::Void(s) => e.return_type == ReturnTypeRef::Void(s),
            ReturnTypeRef::Value(t) => (e.return_type matches ReturnTypeRef::Value(u) && resolved_type(constants, t) == Ok::<
                TypeRef,
                (Seq<char>, Span),
            >(u)),
        }) && e.body@.len() == d.body@.len() && forall|i: int|
            0 <= i < d.body@.len() ==> resolves_stmt_lengths(constants, #[trigger] d.body@[i], e.body@[i])),
        Item::Statement(st) => (b matches Item::Statement(t) && resolves_stmt_lengths(constants, st, t)),
    }
}

/// The constant `name` is defined exactly once among `items`, with a
/// built-in written type and a value that refers to nothing.
pub open spec fn simple_constant(items: Seq<Item>, name: Seq<char>) -> bool {
    exists|k: int|
        0 <= k < items.len() && #[trigger] defines_constant(items[k], name) && (forall|j: int|
            0 <= j < items.len() && j != k ==> !defines_constant(#[trigger] items[j], name)) && (items[k]->ConstantDefinition_0.type_ref.kind matches TypeRefKind::Named(
            n,
        ) && builtin_named(n@) is Some) && dependency_leaf(items[k]->ConstantDefinition_0.value)
}

/// Every array length of `ty` is a number, or a simple constant of `items`
/// whose value in `evaluated` is a valid length.
pub open spec fn type_lengths_sound(items: Seq<Item>, evaluated: Seq<EvaluatedConstant>, ty: TypeRef) -> bool
    decreases ty,
{
    match ty.kind {
        TypeRefKind::Named(_) => true,
        TypeRefKind::Array { element, .. } => type_lengths_sound(items, evaluated, *element),
        TypeRefKind::ArrayConstant { element, constant } => {
            &&& type_lengths_sound(items, evaluated, *element)
            &&& simple_constant(items, constant.name@)
            &&& constant_length(evaluated, constant.name@) is Ok
        },
    }
}

/// An optional written type has every array length ready.
pub open spec fn spec_type_lengths_sound(items: Seq<Item>, evaluated: Seq<EvaluatedConstant>, spec: TypeSpec) -> bool {
    spec matches TypeSpec::Explicit(t) ==> type_lengths_sound(items, evaluated, t)
}

/// Every conversion target in `e` has every array length ready.
pub open spec fn expr_lengths_sound(items: Seq<Item>, evaluated: Seq<EvaluatedConstant>, e: Expr) -> bool
    decreases e,
{
    match e.kind {
        ExprKind::Convert { target, value, .. } => type_lengths_sound(items, evaluated, target) && expr_lengths_sound(items, evaluated, *value),
        ExprKind::Construct { base, fields, .. } => {
            &&& (base matches Some(b) ==> expr_lengths_sound(items, evaluated, *b))
            &&& forall|i: int| 0 <= i < fields@.len() ==> expr_lengths_sound(items, evaluated, #[trigger] fields@[i].value)
        },
        ExprKind::Call { arguments, .. } => forall|i: int|
            0 <= i < arguments@.len() ==> expr_lengths_sound(items, evaluated, #[trigger] arguments@[i]),
        ExprKind::Array(values) => forall|i: int| 0 <= i < values@.len() ==> expr_lengths_sound(items, evaluated, #[trigger] values@[i]),
        ExprKind::Unary { value, .. } => expr_lengths_sound(items, evaluated, *value),
        ExprKind::FieldAccess { base, .. } => expr_lengths_sound(items, evaluated, *base),
        ExprKind::Binary { left, right, .. } => expr_lengths_sound(items, evaluated, *left) && expr_lengths_sound(items, evaluated, *right),
        ExprKind::Logical { left, right, .. } => expr_lengths_sound(items, evaluated, *left) && expr_lengths_sound(items, evaluated, *right),
        ExprKind::Index { base, index } => expr_lengths_sound(items, evaluated, *base) && expr_lengths_sound(items, evaluated, *index),
        _ => true,
    }
}

/// Every written type in `s` has every array length ready.
pub open spec fn stmt_lengths_sound(items: Seq<Item>, evaluated: Seq<EvaluatedConstant>, s: Stmt) -> bool
    decreases s,
{
    match s.kind {
        StmtKind::Block(body) => forall|i: int| 0 <= i < body@.len() ==> stmt_lengths_sound(items, evaluated, #[trigger] body@[i]),
        StmtKind::Binding { type_spec, value, .. } => spec_type_lengths_sound(items, evaluated, type_spec) && expr_lengths_sound(items, evaluated, value),
        StmtKind::Assignment { target, value } => {
            &&& forall|i: int|
                0 <= i < target.projections@.len() ==> expr_lengths_sound(items, evaluated, (#[trigger] target.projections@[i])->index)
            &&& expr_lengths_sound(items, evaluated, value)
        },
        StmtKind::Print { value } => expr_lengths_sound(items, evaluated, value),
        StmtKind::Call { value } => expr_lengths_sound(items, evaluated, value),
        StmtKind::Return { value } => value matches Some(v) ==> expr_lengths_sound(items, evaluated, v),
        StmtKind::If { condition, then_body, else_body } => {
            &&& expr_lengths_sound(items, evaluated, condition)
            &&& forall|i: int| 0 <= i < then_body@.len() ==> stmt_lengths_sound(items, evaluated, #[trigger] then_body@[i])
            &&& forall|i: int| 0 <= i < else_body@.len() ==> stmt_lengths_sound(items, evaluated, #[trigger] else_body@[i])
        },
        StmtKind::While { condition, body } => {
            &&& expr_lengths_sound(items, evaluated, condition)
            &&& forall|i: int| 0 <= i < body@.len() ==> stmt_lengths_sound(items, evaluated, #[trigger] body@[i])
        },
        StmtKind::For { initializer, condition, update, body } => {
            &&& stmt_lengths_sound(items, evaluated, *initializer)
            &&& expr_lengths_sound(items, evaluated, condition)
            &&& stmt_lengths_sound(items, evaluated, *update)
            &&& forall|i: int| 0 <= i < body@.len() ==> stmt_lengths_sound(items, evaluated, #[trigger] body@[i])
        },
        StmtKind::ForEach { index, element, value, body, .. } => {
            &&& (index matches Some(b) ==> spec_type_lengths_sound(items, evaluated, b.type_spec))
            &&& spec_type_lengths_sound(items, evaluated, element.type_spec)
            &&& expr_lengths_sound(items, evaluated, value)
            &&& forall|i: int| 0 <= i < body@.len() ==> stmt_lengths_sound(items, evaluated, #[trigger] body@[i])
        },
        StmtKind::Match { value, arms } => {
            &&& expr_lengths_sound(items, evaluated, value)
            &&& forall|i: int, j: int|
                0 <= i < arms@.len() && 0 <= j < arms@[i].body@.len()
                    ==> stmt_lengths_sound(items, evaluated, #[trigger] arms@[i].body@[j])
        },
        StmtKind::Break => true,
        StmtKind::Continue => true,
    }
}

/// The fields' types name their lengths by numbers, and so do their defaults.
pub open spec fn fields_lengths_sound(items: Seq<Item>, evaluated: Seq<EvaluatedConstant>, fields: Seq<FieldDefinition>) -> bool {
    forall|i: int| 0 <= i < fields.len() ==> {
        &&& type_lengths_sound(items, evaluated, (#[trigger] fields[i]).type_ref)
        &&& (fields[i].default matches Some(v) ==> expr_lengths_sound(items, evaluated, v))
    }
}

/// Every written type of `item` has every array length ready.
pub open spec fn item_lengths_sound(items: Seq<Item>, evaluated: Seq<EvaluatedConstant>, item: Item) -> bool {
    match item {
        Item::ConstantDefinition(d) => type_lengths_sound(items, evaluated, d.type_ref) && expr_lengths_sound(items, evaluated, d.value),
        Item::TypeDefinition(d) => {
            &&& fields_lengths_sound(items, evaluated, d.fields@)
            &&& d.variants matches Some(vs) ==> forall|i: int|
                0 <= i < vs@.len() ==> fields_lengths_sound(items, evaluated, (#[trigger] vs@[i]).fields@)
        },
        Item::FunctionDefinition(d) => {
            &&& forall|i: int| 0 <= i < d.parameters@.len() ==> type_lengths_sound(items, evaluated, (#[trigger] d.parameters@[i]).type_ref)
            &&& (d.return_type matches ReturnTypeRef::Value(t) ==> type_lengths_sound(items, evaluated, t))
            &&& forall|i: int| 0 <= i < d.body@.len() ==> stmt_lengths_sound(items, evaluated, #[trigger] d.body@[i])
        },
        Item::Statement(s) => stmt_lengths_sound(items, evaluated, s),
    }
}

/// `copies` declares what `items` declares, in the same places, and its
/// constants have the same types and the same kind of value.
pub open spec fn constants_kept(items: Seq<Item>, copies: Seq<Item>) -> bool {
    &&& copies.len() == items.len()
    &&& forall|k: int| 0 <= k < items.len() ==> same_declaration(#[trigger] copies[k], items[k])
    &&& forall|k: int| 0 <= k < items.len() && (#[trigger] items[k]) is ConstantDefinition ==> {
        &&& copies[k]->ConstantDefinition_0.type_ref == items[k]->ConstantDefinition_0.type_ref
        &&& dependency_leaf(copies[k]->ConstantDefinition_0.value) == dependency_leaf(items[k]->ConstantDefinition_0.value)
    }
}

proof fn lemma_simple_moves(items: Seq<Item>, copies: Seq<Item>, name: Seq<char>)
    requires
        constants_kept(items, copies),
        simple_constant(items, name),
    ensures
        simple_constant(copies, name),
{
    let k = choose|k: int|
        0 <= k < items.len() && #[trigger] defines_constant(items[k], name) && (forall|j: int|
            0 <= j < items.len() && j != k ==> !defines_constant(#[trigger] items[j], name)) && (items[k]->ConstantDefinition_0.type_ref.kind matches TypeRefKind::Named(
            n,
        ) && builtin_named(n@) is Some) && dependency_leaf(items[k]->ConstantDefinition_0.value);
    assert(same_declaration(copies[k], items[k]));
    assert(defines_constant(copies[k], name));
    assert forall|j: int| 0 <= j < copies.len() && j != k implies !defines_constant(#[trigger] copies[j], name) by {
        assert(same_declaration(copies[j], items[j]));
        assert(!defines_constant(items[j], name));
    }
}

proof fn lemma_type_moves(items: Seq<Item>, copies: Seq<Item>, evaluated: Seq<EvaluatedConstant>, ty: TypeRef)
    requires
        constants_kept(items, copies),
    ensures
        type_lengths_sound(items, evaluated, ty) ==> type_lengths_sound(copies, evaluated, ty),
        type_lengths_integral(items, evaluated, ty) ==> type_lengths_integral(copies, evaluated, ty),
    decreases ty,
{
    match ty.kind {
        TypeRefKind::Named(_) => {},
        TypeRefKind::Array { element, .. } => lemma_type_moves(items, copies, evaluated, *element),
        TypeRefKind::ArrayConstant { element, constant } => {
            lemma_type_moves(items, copies, evaluated, *element);
            if simple_constant(items, constant.name@) {
                lemma_simple_moves(items, copies, constant.name@);
            }
        },
    }
}

proof fn lemma_spec_moves(items: Seq<Item>, copies: Seq<Item>, evaluated: Seq<EvaluatedConstant>, spec: TypeSpec)
    requires
        constants_kept(items, copies),
    ensures
        spec_type_lengths_sound(items, evaluated, spec) ==> spec_type_lengths_sound(copies, evaluated, spec),
        spec_type_lengths_integral(items, evaluated, spec) ==> spec_type_lengths_integral(copies, evaluated, spec),
{
    if let TypeSpec::Explicit(t) = spec {
        lemma_type_moves(items, copies, evaluated, t);
    }
}

proof fn lemma_expr_moves(items: Seq<Item>, copies: Seq<Item>, evaluated: Seq<EvaluatedConstant>, e: Expr)
    requires
        constants_kept(items, copies),
    ensures
        expr_lengths_sound(items, evaluated, e) ==> expr_lengths_sound(copies, evaluated, e),
        expr_lengths_integral(items, evaluated, e) ==> expr_lengths_integral(copies, evaluated, e),
    decreases e,
{
    match e.kind {
        ExprKind::Convert { target, value, .. } => {
            lemma_type_moves(items, copies, evaluated, target);
            lemma_expr_moves(items, copies, evaluated, *value);
        },
        ExprKind::Construct { base, fields, .. } => {
            if let Some(b) = base {
                lemma_expr_moves(items, copies, evaluated, *b);
            }
            assert forall|i: int| 0 <= i < fields@.len() implies (expr_lengths_sound(items, evaluated, #[trigger] fields@[i].value)
                ==> expr_lengths_sound(copies, evaluated, fields@[i].value)) && (expr_lengths_integral(items, evaluated, fields@[i].value)
                ==> expr_lengths_integral(copies, evaluated, fields@[i].value)) by {
                lemma_expr_moves(items, copies, evaluated, fields@[i].value);
            }
        },
        ExprKind::Call { arguments, .. } => {
            assert forall|i: int| 0 <= i < arguments@.len() implies (expr_lengths_sound(items, evaluated, #[trigger] arguments@[i])
                ==> expr_lengths_sound(copies, evaluated, arguments@[i])) && (expr_lengths_integral(items, evaluated, arguments@[i])
                ==> expr_lengths_integral(copies, evaluated, arguments@[i])) by {
                lemma_expr_moves(items, copies, evaluated, arguments@[i]);
            }
        },
        ExprKind::Array(values) => {
            assert forall|i: int| 0 <= i < values@.len() implies (expr_lengths_sound(items, evaluated, #[trigger] values@[i])
                ==> expr_lengths_sound(copies, evaluated, values@[i])) && (expr_lengths_integral(items, evaluated, values@[i])
                ==> expr_lengths_integral(copies, evaluated, values@[i])) by {
                lemma_expr_moves(items, copies, evaluated, values@[i]);
            }
        },
        ExprKind::Unary { value, .. } => lemma_expr_moves(items, copies, evaluated, *value),
        ExprKind::FieldAccess { base, .. } => lemma_expr_moves(items, copies, evaluated, *base),
        ExprKind::Binary { left, right, .. } => {
            lemma_expr_moves(items, copies, evaluated, *left);
            lemma_expr_moves(items, copies, evaluated, *right);
        },
        ExprKind::Logical { left, right, .. } => {
            lemma_expr_moves(items, copies, evaluated, *left);
            lemma_expr_moves(items, copies, evaluated, *right);
        },
        ExprKind::Index { base, index } => {
            lemma_expr_moves(items, copies, evaluated, *base);
            lemma_expr_moves(items, copies, evaluated, *index);
        },
        _ => {},
    }
}

proof fn lemma_stmts_move(items: Seq<Item>, copies: Seq<Item>, evaluated: Seq<EvaluatedConstant>, body: Seq<Stmt>)
    requires
        constants_kept(items, copies),
    ensures
        (forall|i: int| 0 <= i < body.len() ==> stmt_lengths_sound(items, evaluated, #[trigger] body[i])) ==> (forall|i: int|
            0 <= i < body.len() ==> stmt_lengths_sound(copies, evaluated, #[trigger] body[i])),
        (forall|i: int| 0 <= i < body.len() ==> stmt_lengths_integral(items, evaluated, #[trigger] body[i])) ==> (forall|i: int|
            0 <= i < body.len() ==> stmt_lengths_integral(copies, evaluated, #[trigger] body[i])),
    decreases body, 1int,
{
    assert forall|i: int| 0 <= i < body.len() implies (stmt_lengths_sound(items, evaluated, #[trigger] body[i])
        ==> stmt_lengths_sound(copies, evaluated, body[i])) && (stmt_lengths_integral(items, evaluated, body[i])
        ==> stmt_lengths_integral(copies, evaluated, body[i])) by {
        lemma_stmt_moves(items, copies, evaluated, body[i]);
    }
}

proof fn lemma_stmt_moves(items: Seq<Item>, copies: Seq<Item>, evaluated: Seq<EvaluatedConstant>, s: Stmt)
    requires
        constants_kept(items, copies),
    ensures
        stmt_lengths_sound(items, evaluated, s) ==> stmt_lengths_sound(copies, evaluated, s),
        stmt_lengths_integral(items, evaluated, s) ==> stmt_lengths_integral(copies, evaluated, s),
    decreases s, 0int,
{
    match s.kind {
        StmtKind::Block(body) => lemma_stmts_move(items, copies, evaluated, body@),
        StmtKind::Binding { type_spec, value, .. } => {
            lemma_spec_moves(items, copies, evaluated, type_spec);
            lemma_expr_moves(items, copies, evaluated, value);
        },
        StmtKind::Assignment { target, value } => {
            assert forall|i: int| 0 <= i < target.projections@.len() implies (expr_lengths_sound(
                items,
                evaluated,
                (#[trigger] target.projections@[i])->index,
            ) ==> expr_lengths_sound(copies, evaluated, target.projections@[i]->index)) && (expr_lengths_integral(
                items,
                evaluated,
                target.projections@[i]->index,
            ) ==> expr_lengths_integral(copies, evaluated, target.projections@[i]->index)) by {
                lemma_expr_moves(items, copies, evaluated, target.projections@[i]->index);
            }
            lemma_expr_moves(items, copies, evaluated, value);
        },
        StmtKind::Print { value } => lemma_expr_moves(items, copies, evaluated, value),
        StmtKind::Call { value } => lemma_expr_moves(items, copies, evaluated, value),
        StmtKind::Return { value } => {
            if let Some(v) = value {
                lemma_expr_moves(items, copies, evaluated, v);
            }
        },
        StmtKind::If { condition, then_body, else_body } => {
            lemma_expr_moves(items, copies, evaluated, condition);
            lemma_stmts_move(items, copies, evaluated, then_body@);
            lemma_stmts_move(items, copies, evaluated, else_body@);
        },
        StmtKind::While { condition, body } => {
            lemma_expr_moves(items, copies, evaluated, condition);
            lemma_stmts_move(items, copies, evaluated, body@);
        },
        StmtKind::For { initializer, condition, update, body } => {
            lemma_stmt_moves(items, copies, evaluated, *initializer);
            lemma_expr_moves(items, copies, evaluated, condition);
            lemma_stmt_moves(items, copies, evaluated, *update);
            lemma_stmts_move(items, copies, evaluated, body@);
        },
        StmtKind::ForEach { index, element, value, body, .. } => {
            if let Some(b) = index {
                lemma_spec_moves(items, copies, evaluated, b.type_spec);
            }
            lemma_spec_moves(items, copies, evaluated, element.type_spec);
            lemma_expr_moves(items, copies, evaluated, value);
            lemma_stmts_move(items, copies, evaluated, body@);
        },
        StmtKind::Match { value, arms } => {
            lemma_expr_moves(items, copies, evaluated, value);
            assert forall|i: int, j: int| 0 <= i < arms@.len() && 0 <= j < arms@[i].body@.len() implies (stmt_lengths_sound(
                items,
                evaluated,
                #[trigger] arms@[i].body@[j],
            ) ==> stmt_lengths_sound(copies, evaluated, arms@[i].body@[j])) && (stmt_lengths_integral(items, evaluated, arms@[i].body@[j])
                ==> stmt_lengths_integral(copies, evaluated, arms@[i].body@[j])) by {
                assert(decreases_to!(s => arms@[i].body@[j]));
                lemma_stmt_moves(items, copies, evaluated, arms@[i].body@[j]);
            }
        },
        StmtKind::Break => {},
        StmtKind::Continue => {},
    }
}

proof fn lemma_fields_move(items: Seq<Item>, copies: Seq<Item>, evaluated: Seq<EvaluatedConstant>, fields: Seq<FieldDefinition>)
    requires
        constants_kept(items, copies),
    ensures
        fields_lengths_sound(items, evaluated, fields) ==> fields_lengths_sound(copies, evaluated, fields),
        fields_lengths_integral(items, evaluated, fields) ==> fields_lengths_integral(copies, evaluated, fields),
{
    assert forall|i: int| 0 <= i < fields.len() implies {
        &&& type_lengths_sound(items, evaluated, (#[trigger] fields[i]).type_ref) ==> type_lengths_sound(copies, evaluated, fields[i].type_ref)
        &&& type_lengths_integral(items, evaluated, fields[i].type_ref) ==> type_lengths_integral(copies, evaluated, fields[i].type_ref)
        &&& (fields[i].default matches Some(v) ==> (expr_lengths_sound(items, evaluated, v) ==> expr_lengths_sound(copies, evaluated, v)))
        &&& (fields[i].default matches Some(v) ==> (expr_lengths_integral(items, evaluated, v) ==> expr_lengths_integral(copies, evaluated, v)))
    } by {
        lemma_type_moves(items, copies, evaluated, fields[i].type_ref);
        if let Some(v) = fields[i].default {
            lemma_expr_moves(items, copies, evaluated, v);
        }
    }
}

proof fn lemma_item_moves(items: Seq<Item>, copies: Seq<Item>, evaluated: Seq<EvaluatedConstant>, item: Item)
    requires
        constants_kept(items, copies),
    ensures
        item_lengths_sound(items, evaluated, item) ==> item_lengths_sound(copies, evaluated, item),
        item_lengths_integral(items, evaluated, item) ==> item_lengths_integral(copies, evaluated, item),
{
    match item {
        Item::ConstantDefinition(d) => {
            lemma_type_moves(items, copies, evaluated, d.type_ref);
            lemma_expr_moves(items, copies, evaluated, d.value);
        },
        Item::TypeDefinition(d) => {
            lemma_fields_move(items, copies, evaluated, d.fields@);
            if let Some(vs) = d.variants {
                assert forall|i: int| 0 <= i < vs@.len() implies (fields_lengths_sound(items, evaluated, (#[trigger] vs@[i]).fields@)
                    ==> fields_lengths_sound(copies, evaluated, vs@[i].fields@)) && (fields_lengths_integral(items, evaluated, vs@[i].fields@)
                    ==> fields_lengths_integral(copies, evaluated, vs@[i].fields@)) by {
                    lemma_fields_move(items, copies, evaluated, vs@[i].fields@);
                }
            }
        },
        Item::FunctionDefinition(d) => {
            assert forall|i: int| 0 <= i < d.parameters@.len() implies (type_lengths_sound(items, evaluated, (#[trigger] d.parameters@[i]).type_ref)
                ==> type_lengths_sound(copies, evaluated, d.parameters@[i].type_ref)) && (type_lengths_integral(items, evaluated, d.parameters@[i].type_ref)
                ==> type_lengths_integral(copies, evaluated, d.parameters@[i].type_ref)) by {
                lemma_type_moves(items, copies, evaluated, d.parameters@[i].type_ref);
            }
            if let ReturnTypeRef::Value(t) = d.return_type {
                lemma_type_moves(items, copies, evaluated, t);
            }
            lemma_stmts_move(items, copies, evaluated, d.body@);
        },
        Item::Statement(s) => lemma_stmt_moves(items, copies, evaluated, s),
    }
}

/// `message` is one of the errors a constant array length with an integer
/// value can give: not positive, or too large.
pub open spec fn length_value_error(message: Seq<char>) -> bool {
    message == "array length must be greater than zero"@ || message == "array length is too large"@
}

/// Every array length of `ty` is a number, or a simple constant of `items`
/// whose value in `evaluated` is an integer.
pub open spec fn type_lengths_integral(items: Seq<Item>, evaluated: Seq<EvaluatedConstant>, ty: TypeRef) -> bool
    decreases ty,
{
    match ty.kind {
        TypeRefKind::Named(_) => true,
        TypeRefKind::Array { element, .. } => type_lengths_integral(items, evaluated, *element),
        TypeRefKind::ArrayConstant { element, constant } => {
            &&& type_lengths_integral(items, evaluated, *element)
            &&& simple_constant(items, constant.name@)
            &&& constant_value(evaluated, constant.name@) matches Some(ConstantValue::Integer(_))
        },
    }
}

/// An optional written type has every array length integral.
pub open spec fn spec_type_lengths_integral(items: Seq<Item>, evaluated: Seq<EvaluatedConstant>, spec: TypeSpec) -> bool {
    spec matches TypeSpec::Explicit(t) ==> type_lengths_integral(items, evaluated, t)
}

/// Every conversion target in `e` has every array length integral.
pub open spec fn expr_lengths_integral(items: Seq<Item>, evaluated: Seq<EvaluatedConstant>, e: Expr) -> bool
    decreases e,
{
    match e.kind {
        ExprKind::Convert { target, value, .. } => type_lengths_integral(items, evaluated, target) && expr_lengths_integral(items, evaluated, *value),
        ExprKind::Construct { base, fields, .. } => {
            &&& (base matches Some(b) ==> expr_lengths_integral(items, evaluated, *b))
            &&& forall|i: int| 0 <= i < fields@.len() ==> expr_lengths_integral(items, evaluated, #[trigger] fields@[i].value)
        },
        ExprKind::Call { arguments, .. } => forall|i: int|
            0 <= i < arguments@.len() ==> expr_lengths_integral(items, evaluated, #[trigger] arguments@[i]),
        ExprKind::Array(values) => forall|i: int| 0 <= i < values@.len() ==> expr_lengths_integral(items, evaluated, #[trigger] values@[i]),
        ExprKind::Unary { value, .. } => expr_lengths_integral(items, evaluated, *value),
        ExprKind::FieldAccess { base, .. } => expr_lengths_integral(items, evaluated, *base),
        ExprKind::Binary { left, right, .. } => expr_lengths_integral(items, evaluated, *left) && expr_lengths_integral(items, evaluated, *right),
        ExprKind::Logical { left, right, .. } => expr_lengths_integral(items, evaluated, *left) && expr_lengths_integral(items, evaluated, *right),
        ExprKind::Index { base, index } => expr_lengths_integral(items, evaluated, *base) && expr_lengths_integral(items, evaluated, *index),
        _ => true,
    }
}

/// Every written type in `s` has every array length integral.
pub open spec fn stmt_lengths_integral(items: Seq<Item>, evaluated: Seq<EvaluatedConstant>, s: Stmt) -> bool
    decreases s,
{
    match s.kind {
        StmtKind::Block(body) => forall|i: int| 0 <= i < body@.len() ==> stmt_lengths_integral(items, evaluated, #[trigger] body@[i]),
        StmtKind::Binding { type_spec, value, .. } => spec_type_lengths_integral(items, evaluated, type_spec) && expr_lengths_integral(items, evaluated, value),
        StmtKind::Assignment { target, value } => {
            &&& forall|i: int|
                0 <= i < target.projections@.len() ==> expr_lengths_integral(items, evaluated, (#[trigger] target.projections@[i])->index)
            &&& expr_lengths_integral(items, evaluated, value)
        },
        StmtKind::Print { value } => expr_lengths_integral(items, evaluated, value),
        StmtKind::Call { value } => expr_lengths_integral(items, evaluated, value),
        StmtKind::Return { value } => value matches Some(v) ==> expr_lengths_integral(items, evaluated, v),
        StmtKind::If { condition, then_body, else_body } => {
            &&& expr_lengths_integral(items, evaluated, condition)
            &&& forall|i: int| 0 <= i < then_body@.len() ==> stmt_lengths_integral(items, evaluated, #[trigger] then_body@[i])
            &&& forall|i: int| 0 <= i < else_body@.len() ==> stmt_lengths_integral(items, evaluated, #[trigger] else_body@[i])
        },
        StmtKind::While { condition, body } => {
            &&& expr_lengths_integral(items, evaluated, condition)
            &&& forall|i: int| 0 <= i < body@.len() ==> stmt_lengths_integral(items, evaluated, #[trigger] body@[i])
        },
        StmtKind::For { initializer, condition, update, body } => {
            &&& stmt_lengths_integral(items, evaluated, *initializer)
            &&& expr_lengths_integral(items, evaluated, condition)
            &&& stmt_lengths_integral(items, evaluated, *update)
            &&& forall|i: int| 0 <= i < body@.len() ==> stmt_lengths_integral(items, evaluated, #[trigger] body@[i])
        },
        StmtKind::ForEach { index, element, value, body, .. } => {
            &&& (index matches Some(b) ==> spec_type_lengths_integral(items, evaluated, b.type_spec))
            &&& spec_type_lengths_integral(items, evaluated, element.type_spec)
            &&& expr_lengths_integral(items, evaluated, value)
            &&& forall|i: int| 0 <= i < body@.len() ==> stmt_lengths_integral(items, evaluated, #[trigger] body@[i])
        },
        StmtKind::Match { value, arms } => {
            &&& expr_lengths_integral(items, evaluated, value)
            &&& forall|i: int, j: int|
                0 <= i < arms@.len() && 0 <= j < arms@[i].body@.len()
                    ==> stmt_lengths_integral(items, evaluated, #[trigger] arms@[i].body@[j])
        },
        StmtKind::Break => true,
        StmtKind::Continue => true,
    }
}

/// The fields' types name their lengths by numbers, and so do their defaults.
pub open spec fn fields_lengths_integral(items: Seq<Item>, evaluated: Seq<EvaluatedConstant>, fields: Seq<FieldDefinition>) -> bool {
    forall|i: int| 0 <= i < fields.len() ==> {
        &&& type_lengths_integral(items, evaluated, (#[trigger] fields[i]).type_ref)
        &&& (fields[i].default matches Some(v) ==> expr_lengths_integral(items, evaluated, v))
    }
}

/// Every written type of `item` has every array length integral.
pub open spec fn item_lengths_integral(items: Seq<Item>, evaluated: Seq<EvaluatedConstant>, item: Item) -> bool {
    match item {
        Item::ConstantDefinition(d) => type_lengths_integral(items, evaluated, d.type_ref) && expr_lengths_integral(items, evaluated, d.value),
        Item::TypeDefinition(d) => {
            &&& fields_lengths_integral(items, evaluated, d.fields@)
            &&& d.variants matches Some(vs) ==> forall|i: int|
                0 <= i < vs@.len() ==> fields_lengths_integral(items, evaluated, (#[trigger] vs@[i]).fields@)
        },
        Item::FunctionDefinition(d) => {
            &&& forall|i: int| 0 <= i < d.parameters@.len() ==> type_lengths_integral(items, evaluated, (#[trigger] d.parameters@[i]).type_ref)
            &&& (d.return_type matches ReturnTypeRef::Value(t) ==> type_lengths_integral(items, evaluated, t))
            &&& forall|i: int| 0 <= i < d.body@.len() ==> stmt_lengths_integral(items, evaluated, #[trigger] d.body@[i])
        },
        Item::Statement(s) => stmt_lengths_integral(items, evaluated, s),
    }
}

/// `a` is an initial part of `b`.
pub open spec fn prefix_of<A>(a: Seq<A>, b: Seq<A>) -> bool {
    &&& a.len() <= b.len()
    &&& forall|i: int| #![trigger b[i]] #![trigger a[i]] 0 <= i < a.len() ==> b[i] == a[i]
}

/// Some entry of `list` reads `name`.
pub open spec fn listed(list: Seq<String>, name: Seq<char>) -> bool {
    exists|i: int| 0 <= i < list.len() && (#[trigger] list[i])@ == name
}

/// The length remembered first for the constant `name`, if any.
pub open spec fn cached_length(lengths: Seq<(String, usize)>, name: Seq<char>) -> Option<usize>
    decreases lengths.len(),
{
    if lengths.len() == 0 {
        None
    } else if lengths[0].0@ == name {
        Some(lengths[0].1)
    } else {
        cached_length(lengths.skip(1), name)
    }
}

/// Every type that `ty` names is built in or known sound, and every
/// constant that gives one of its lengths has its length remembered.
pub open spec fn type_recorded(types_done: Seq<String>, lengths: Seq<(String, usize)>, ty: TypeRef) -> bool
    decreases ty,
{
    match ty.kind {
        TypeRefKind::Named(n) => builtin_named(n@) is Some || listed(types_done, n@),
        TypeRefKind::Array { element, .. } => type_recorded(types_done, lengths, *element),
        TypeRefKind::ArrayConstant { element, constant } => {
            &&& type_recorded(types_done, lengths, *element)
            &&& exists|j: int| 0 <= j < lengths.len() && (#[trigger] lengths[j]).0@ == constant.name@
        },
    }
}

proof fn lemma_type_recorded_grows(
    a: Seq<String>,
    la: Seq<(String, usize)>,
    b: Seq<String>,
    lb: Seq<(String, usize)>,
    ty: TypeRef,
)
    requires
        type_recorded(a, la, ty),
        prefix_of(a, b),
        prefix_of(la, lb),
    ensures
        type_recorded(b, lb, ty),
    decreases ty,
{
    match ty.kind {
        TypeRefKind::Named(n) => {
            if builtin_named(n@) is None {
                let i = choose|i: int| 0 <= i < a.len() && (#[trigger] a[i])@ == n@;
                assert(b[i] == a[i]);
            }
        },
        TypeRefKind::Array { element, .. } => lemma_type_recorded_grows(a, la, b, lb, *element),
        TypeRefKind::ArrayConstant { element, constant } => {
            lemma_type_recorded_grows(a, la, b, lb, *element);
            let j = choose|j: int| 0 <= j < la.len() && (#[trigger] la[j]).0@ == constant.name@;
            assert(lb[j] == la[j]);
        },
    }
}

proof fn lemma_cached_length_skip(lengths: Seq<(String, usize)>, name: Seq<char>, i: int)
    requires
        0 <= i < lengths.len(),
        lengths[i].0@ != name,
    ensures
        cached_length(lengths.skip(i), name) == cached_length(lengths.skip(i + 1), name),
{
    assert(lengths.skip(i).skip(1) =~= lengths.skip(i + 1));
}

/// `item` defines a constant named `name`.
pub open spec fn defines_constant(item: Item, name: Seq<char>) -> bool {
    item matches Item::ConstantDefinition(d) && d.name@ == name
}

/// `item` defines a type named `name`.
pub open spec fn defines_type(item: Item, name: Seq<char>) -> bool {
    item matches Item::TypeDefinition(d) && d.name@ == name
}

/// Exactly one item of `items` satisfies `defines` for `name`.
pub open spec fn type_defined_once(items: Seq<Item>, name: Seq<char>) -> bool {
    &&& exists|m: int| 0 <= m < items.len() && defines_type(#[trigger] items[m], name)
    &&& forall|a: int, b: int|
        0 <= a < b < items.len() && defines_type(#[trigger] items[a], name) ==> !defines_type(#[trigger] items[b], name)
}

/// What a constructor path names in `item`: the type itself (`false`) or
/// one of its variants (`true`).
pub open spec fn constructs(item: Item, path: Seq<char>) -> Option<bool> {
    match item {
        Item::TypeDefinition(d) => {
            if d.name@ == path {
                Some(false)
            } else if path.len() >= d.name@.len() + 2 && path.subrange(0, d.name@.len() + 2int) == d.name@ + "::"@
                && (d.variants matches Some(vs) && exists|v: int|
                0 <= v < vs@.len() && (#[trigger] vs@[v]).name@ == path.skip(d.name@.len() + 2int)) {
                Some(true)
            } else {
                None
            }
        },
        _ => None,
    }
}

/// Every call in `e`, at any depth, is of `byte_len` or `array_len`.
pub open spec fn constant_calls_allowed(e: Expr) -> bool
    decreases e,
{
    match e.kind {
        ExprKind::Call { name, arguments, .. } => {
            &&& (name@ == "byte_len"@ || name@ == "array_len"@)
            &&& forall|i: int| 0 <= i < arguments@.len() ==> constant_calls_allowed(#[trigger] arguments@[i])
        },
        ExprKind::Construct { base, fields, .. } => {
            &&& (base matches Some(b) ==> constant_calls_allowed(*b))
            &&& forall|i: int| 0 <= i < fields@.len() ==> constant_calls_allowed(#[trigger] fields@[i].value)
        },
        ExprKind::Convert { value, .. } => constant_calls_allowed(*value),
        ExprKind::Array(values) => forall|i: int| 0 <= i < values@.len() ==> constant_calls_allowed(#[trigger] values@[i]),
        ExprKind::Unary { value, .. } => constant_calls_allowed(*value),
        ExprKind::FieldAccess { base, .. } => constant_calls_allowed(*base),
        ExprKind::Binary { left, right, .. } => constant_calls_allowed(*left) && constant_calls_allowed(*right),
        ExprKind::Logical { left, right, .. } => constant_calls_allowed(*left) && constant_calls_allowed(*right),
        ExprKind::Index { base, index } => constant_calls_allowed(*base) && constant_calls_allowed(*index),
        _ => true,
    }
}

/// `expr` holds no operand for the dependency check to follow.
pub open spec fn dependency_leaf(expr: Expr) -> bool {
    match expr.kind {
        ExprKind::Variable(_) => false,
        ExprKind::Call { .. } => false,
        ExprKind::Construct { .. } => false,
        ExprKind::Convert { .. } => false,
        ExprKind::Array(_) => false,
        ExprKind::Unary { .. } => false,
        ExprKind::FieldAccess { .. } => false,
        ExprKind::Binary { .. } => false,
        ExprKind::Logical { .. } => false,
        ExprKind::Index { .. } => false,
        _ => true,
    }
}

/// The first position from `from` on at which `items` holds a type that
/// `path` constructs.
pub open spec fn first_constructed(items: Seq<Item>, path: Seq<char>, from: int) -> Option<int>
    decreases items.len() - from,
{
    if from < 0 || from >= items.len() {
        None
    } else if constructs(items[from], path) is Some {
        Some(from)
    } else {
        first_constructed(items, path, from + 1)
    }
}

proof fn lemma_first_constructed(items: Seq<Item>, path: Seq<char>, k: int, from: int)
    requires
        0 <= from <= k < items.len(),
        constructs(items[k], path) is Some,
        forall|m: int| 0 <= m < k ==> constructs(#[trigger] items[m], path) is None,
    ensures
        first_constructed(items, path, from) == Some(k),
    decreases k - from,
{
    if from < k {
        lemma_first_constructed(items, path, k, from + 1);
    }
}

/// The defaults of the `declared` fields that `given` leaves out, in order.
pub open spec fn omitted_defaults(declared: Seq<FieldDefinition>, given: Seq<FieldValue>) -> Seq<Expr>
    decreases declared.len(),
{
    if declared.len() == 0 {
        Seq::empty()
    } else {
        let rest = omitted_defaults(declared.drop_last(), given);
        let f = declared.last();
        if !(exists|g: int| 0 <= g < given.len() && (#[trigger] given[g]).name@ == f.name@) && f.default is Some {
            rest.push(f.default->Some_0)
        } else {
            rest
        }
    }
}

/// The values of `fields`, in order.
pub open spec fn field_exprs(fields: Seq<FieldValue>) -> Seq<Expr> {
    Seq::new(fields.len(), |i: int| fields[i].value)
}

/// The number of nodes that checking `e` as a constant's value at `nesting`
/// visits: `e`, its operands, and for a product built without a base value
/// the defaults of the fields it leaves out, looked up in `items`.
pub open spec fn visited_nodes(items: Seq<Item>, e: Expr, nesting: int) -> int
    decreases 128 - nesting, 0int, 0int,
{
    if nesting < 0 || nesting >= 128 {
        0
    } else {
        1 + match e.kind {
            ExprKind::Call { arguments, .. } => list_nodes(items, arguments@, nesting + 1),
            ExprKind::Construct { type_path, base, fields, .. } => match base {
                Some(b) => visited_nodes(items, *b, nesting + 1) + list_nodes(items, field_exprs(fields@), nesting + 1),
                None => list_nodes(items, field_exprs(fields@), nesting + 1) + match first_constructed(items, type_path@, 0) {
                    Some(k) => if constructs(items[k], type_path@) == Some(false) {
                        list_nodes(items, omitted_defaults(items[k]->TypeDefinition_0.fields@, fields@), nesting + 1)
                    } else {
                        0
                    },
                    None => 0,
                },
            },
            ExprKind::Convert { value, .. } => visited_nodes(items, *value, nesting + 1),
            ExprKind::Array(values) => list_nodes(items, values@, nesting + 1),
            ExprKind::Unary { value, .. } => visited_nodes(items, *value, nesting + 1),
            ExprKind::FieldAccess { base, .. } => visited_nodes(items, *base, nesting + 1),
            ExprKind::Binary { left, right, .. } => visited_nodes(items, *left, nesting + 1) + visited_nodes(
                items,
                *right,
                nesting + 1,
            ),
            ExprKind::Logical { left, right, .. } => visited_nodes(items, *left, nesting + 1) + visited_nodes(
                items,
                *right,
                nesting + 1,
            ),
            ExprKind::Index { base, index } => visited_nodes(items, *base, nesting + 1) + visited_nodes(
                items,
                *index,
                nesting + 1,
            ),
            _ => 0,
        }
    }
}

/// `visited_nodes` summed over `es`.
pub open spec fn list_nodes(items: Seq<Item>, es: Seq<Expr>, nesting: int) -> int
    decreases 128 - nesting, 1int, es.len(),
{
    if es.len() == 0 {
        0
    } else {
        list_nodes(items, es.drop_last(), nesting) + visited_nodes(items, es.last(), nesting)
    }
}

/// Array length resolution in progress: the constants and types whose
/// dependencies are known to be sound, the lengths found so far, the chain
/// of definitions being followed, and the uses recorded.
struct Resolver<'a> {
    evaluated: &'a Vec<EvaluatedConstant>,
    constants_done: Vec<String>,
    types_done: Vec<String>,
    lengths: Vec<(String, usize)>,
    stack: Vec<String>,
    uses: Vec<LengthUse>,
}

impl<'a> Resolver<'a> {
    /// Every remembered length and every recorded use agrees with the
    /// evaluated constants, and the chain is at most 128 deep and holds no
    /// definition twice.
    spec fn wf(&self) -> bool {
        &&& self.stack@.len() <= 128
        &&& forall|i: int, j: int| 0 <= i < j < self.stack@.len() ==> (#[trigger] self.stack@[i])@ != (#[trigger] self.stack@[j])@
        &&& forall|i: int| 0 <= i < self.lengths@.len()
            ==> constant_length(self.evaluated@, (#[trigger] self.lengths@[i]).0@) == Ok::<usize, Seq<char>>(self.lengths@[i].1)
        &&& uses_agree(self.evaluated@, self.uses@)
    }

    /// The chain, the evaluated constants and the bound are as before.
    spec fn kept(&self, other: &Self) -> bool {
        &&& self.stack@ == other.stack@
        &&& self.evaluated == other.evaluated
    }

    /// What is known to be sound, and the lengths found, only grew, and no
    /// use was recorded.
    spec fn grew(&self, other: &Self) -> bool {
        &&& prefix_of(other.constants_done@, self.constants_done@)
        &&& prefix_of(other.types_done@, self.types_done@)
        &&& prefix_of(other.lengths@, self.lengths@)
        &&& self.uses == other.uses
    }

    /// Follows one more definition, refusing a cycle or a chain deeper than 128.
    fn enter(&mut self, key: String, span: Span) -> (r: Result<(), Diagnostic>)
        requires
            old(self).wf(),
        ensures
            r is Ok ==> final(self).stack@ == old(self).stack@.push(key) && final(self).wf()
                && final(self).evaluated == old(self).evaluated,
            r is Ok ==> final(self).constants_done == old(self).constants_done && final(self).types_done
                == old(self).types_done && final(self).lengths == old(self).lengths && final(self).uses
                == old(self).uses,
            r is Err ==> *final(self) == *old(self),
            listed(old(self).stack@, key@) ==> (r matches Err(e) && e.message@
                == "cyclic array length dependency through "@ + key@ && e.span == Some(span)),
            !listed(old(self).stack@, key@) && old(self).stack@.len() >= 128 ==> (r matches Err(e)
                && e.message@ == "array length dependency depth exceeds 128"@ && e.span == Some(span)),
            !listed(old(self).stack@, key@) && old(self).stack@.len() < 128 ==> r is Ok,
    {
        if contains_text(&self.stack, key.as_str()) {
            let mut message = String::from_str("cyclic array length dependency through ");
            message.append(key.as_str());
            return Err(Diagnostic::new(message, span));
        }
        if self.stack.len() >= 128 {
            return Err(Diagnostic::new(String::from_str("array length dependency depth exceeds 128"), span));
        }
        self.stack.push(key);
        Ok(())
    }

    /// Leaves the definition entered last.
    fn leave(&mut self, key: Ghost<String>)
        requires
            old(self).wf(),
            old(self).stack@.len() > 0,
            old(self).stack@.last() == key@,
        ensures
            final(self).stack@ == old(self).stack@.drop_last(),
            final(self).wf(),
            final(self).evaluated == old(self).evaluated,
            final(self).constants_done == old(self).constants_done,
            final(self).types_done == old(self).types_done,
            final(self).lengths == old(self).lengths,
            final(self).uses == old(self).uses,
    {
        self.stack.pop();
    }

    /// The length that the constant `name` gives; its dependencies are
    /// checked first, and the value comes from the evaluated constants.
    #[verifier::loop_isolation(false)]
    fn length(&mut self, source: &Program, name: &str, span: Span, depth: usize) -> (r: Result<usize, Diagnostic>)
        requires
            old(self).wf(),
            depth == old(self).stack@.len(),
        ensures
            r is Ok ==> final(self).wf() && final(self).kept(old(self)) && final(self).grew(old(self)),
            r matches Ok(n) ==> constant_length(old(self).evaluated@, name@) == Ok::<usize, Seq<char>>(n),
            r matches Ok(n) ==> exists|j: int|
                0 <= j < final(self).lengths@.len() && (#[trigger] final(self).lengths@[j]).0@ == name@
                    && final(self).lengths@[j].1 == n,
            cached_length(old(self).lengths@, name@) matches Some(n) ==> r == Ok::<usize, Diagnostic>(n)
                && *final(self) == *old(self),
            constant_length(old(self).evaluated@, name@) is Err ==> r is Err,
            simple_constant(source.items@, name@) && constant_length(old(self).evaluated@, name@) is Ok && old(self).stack@.len()
                == 0 ==> r is Ok,
            simple_constant(source.items@, name@) && (constant_value(old(self).evaluated@, name@) matches Some(
                ConstantValue::Integer(_),
            )) && old(self).stack@.len() == 0 ==> (r matches Err(e) ==> length_value_error(e.message@)),
        decreases 128 - depth, 1int, 0int,
    {
        let mut i: usize = 0;
        assert(self.lengths@.skip(0) =~= self.lengths@);
        while i < self.lengths.len()
            invariant
                i <= self.lengths@.len(),
                cached_length(self.lengths@, name@) == cached_length(self.lengths@.skip(i as int), name@),
                *self == *old(self),
            decreases self.lengths@.len() - i,
        {
            if same_text(self.lengths[i].0.as_str(), name) {
                assert(constant_length(self.evaluated@, self.lengths@[i as int].0@) == Ok::<usize, Seq<char>>(self.lengths@[i as int].1));
                assert(self.lengths@.skip(i as int)[0] == self.lengths@[i as int]);
                return Ok(self.lengths[i].1);
            }
            proof {
                lemma_cached_length_skip(self.lengths@, name@, i as int);
            }
            i = i + 1;
        }
        let ghost before = *self;
        self.constant(source, name, span, depth)?;
        let length = resolve_length(self.evaluated, name, span)?;
        let ghost mid = self.lengths@;
        self.lengths.push((String::from_str(name), length));
        proof {
            let last = self.lengths@.len() - 1;
            assert(self.lengths@[last].0@ == name@);
            assert(prefix_of(mid, self.lengths@));
        }
        Ok(length)
    }

    /// Checks the dependencies of the constant `name`: it is defined once,
    /// and its type and value refer only to sound definitions.
    fn constant(&mut self, source: &Program, name: &str, span: Span, depth: usize) -> (r: Result<(), Diagnostic>)
        requires
            old(self).wf(),
            depth == old(self).stack@.len(),
        ensures
            r is Ok ==> final(self).wf() && final(self).kept(old(self)) && final(self).grew(old(self)),
            r is Ok ==> listed(final(self).constants_done@, name@),
            listed(old(self).constants_done@, name@) ==> r is Ok && *final(self) == *old(self),
            !listed(old(self).constants_done@, name@) && (forall|i: int|
                0 <= i < source.items@.len() ==> !defines_constant(#[trigger] source.items@[i], name@)) ==> (r matches Err(e)
                && e.message@ == "array length requires a constant: unknown constant "@ + name@ && e.span == Some(span)),
            !listed(old(self).constants_done@, name@) && (exists|i: int, j: int|
                0 <= i < j < source.items@.len() && defines_constant(#[trigger] source.items@[i], name@)
                    && defines_constant(#[trigger] source.items@[j], name@)) ==> (r matches Err(e) && e.message@
                == "duplicate constant "@ + name@),
            simple_constant(source.items@, name@) && old(self).stack@.len() == 0 ==> r is Ok,
        decreases 128 - depth, 0int, 0int,
    {
        if contains_text(&self.constants_done, name) {
            return Ok(());
        }
        let mut found: Option<usize> = None;
        let mut i: usize = 0;
        while i < source.items.len()
            invariant
                i <= source.items@.len(),
                *self == *old(self),
                !listed(old(self).constants_done@, name@),
                found matches Some(k) ==> k < i && source.items@[k as int] is ConstantDefinition
                    && defines_constant(source.items@[k as int], name@),
                found matches Some(k) ==> forall|m: int| 0 <= m < i && m != k ==> !defines_constant(#[trigger] source.items@[m], name@),
                found is None ==> forall|m: int| 0 <= m < i ==> !defines_constant(#[trigger] source.items@[m], name@),
            decreases source.items@.len() - i,
        {
            if let Item::ConstantDefinition(d) = &source.items[i] {
                if same_text(d.name.as_str(), name) {
                    match found {
                        Some(k) => {
                            let mut message = String::from_str("duplicate constant ");
                            message.append(name);
                            let first = match &source.items[k] {
                                Item::ConstantDefinition(first) => first.name_span,
                                _ => d.name_span,
                            };
                            return Err(Diagnostic::new(message, first));
                        },
                        None => {
                            found = Some(i);
                        },
                    }
                }
            }
            i = i + 1;
        }
        proof {
            if found is Some {
                let k = found->Some_0 as int;
                assert forall|a: int, b: int| 0 <= a < b < source.items@.len() && defines_constant(
                    #[trigger] source.items@[a],
                    name@,
                ) implies !defines_constant(#[trigger] source.items@[b], name@) by {
                    if b != k {
                    } else {
                        assert(a != k);
                    }
                }
            }
        }
        let k = match found {
            Some(k) => k,
            None => {
                let mut message = String::from_str("array length requires a constant: unknown constant ");
                message.append(name);
                return Err(Diagnostic::new(message, span));
            },
        };
        let definition = match &source.items[k] {
            Item::ConstantDefinition(d) => d,
            _ => vstd::pervasive::unreached(),
        };
        let key = joined("constant ", name);
        let ghost entered = key;
        self.enter(key, span)?;
        let ghost inside = *self;
        self.dependency_type(source, &definition.type_ref, depth + 1)?;
        let mut budget: usize = 100000;
        self.constant_expr(source, &definition.value, &mut budget, 0, depth + 1)?;
        self.leave(Ghost(entered));
        assert(self.stack@ =~= old(self).stack@);
        let ghost mid = self.constants_done@;
        self.constants_done.push(String::from_str(name));
        proof {
            assert(prefix_of(mid, self.constants_done@));
            assert(self.constants_done@[self.constants_done@.len() - 1]@ == name@);
        }
        Ok(())
    }

    /// Checks the dependencies of the type `name`: a built-in type, or a
    /// type defined once whose field types refer only to sound definitions.
    fn named_type(&mut self, source: &Program, name: &str, span: Span, depth: usize) -> (r: Result<(), Diagnostic>)
        requires
            old(self).wf(),
            depth == old(self).stack@.len(),
        ensures
            r is Ok ==> final(self).wf() && final(self).kept(old(self)) && final(self).grew(old(self)),
            r is Ok ==> builtin_named(name@) is Some || listed(final(self).types_done@, name@),
            builtin_named(name@) is Some || listed(old(self).types_done@, name@) ==> r is Ok && *final(self)
                == *old(self),
            builtin_named(name@) is None && !listed(old(self).types_done@, name@) && (forall|i: int|
                0 <= i < source.items@.len() ==> !defines_type(#[trigger] source.items@[i], name@)) ==> (r matches Err(e)
                && e.message@ == "unknown type "@ + name@ && e.span == Some(span)),
            builtin_named(name@) is None && !listed(old(self).types_done@, name@) && (exists|i: int, j: int|
                0 <= i < j < source.items@.len() && defines_type(#[trigger] source.items@[i], name@)
                    && defines_type(#[trigger] source.items@[j], name@)) ==> (r matches Err(e) && e.message@
                == "duplicate type "@ + name@),
        decreases 128 - depth, 0int, 0int,
    {
        if Type::from_name(name).is_some() || contains_text(&self.types_done, name) {
            return Ok(());
        }
        let mut found: Option<usize> = None;
        let mut i: usize = 0;
        while i < source.items.len()
            invariant
                i <= source.items@.len(),
                *self == *old(self),
                builtin_named(name@) is None,
                !listed(old(self).types_done@, name@),
                found matches Some(k) ==> k < i && source.items@[k as int] is TypeDefinition
                    && defines_type(source.items@[k as int], name@),
                found matches Some(k) ==> forall|m: int| 0 <= m < i && m != k ==> !defines_type(#[trigger] source.items@[m], name@),
                found is None ==> forall|m: int| 0 <= m < i ==> !defines_type(#[trigger] source.items@[m], name@),
            decreases source.items@.len() - i,
        {
            if let Item::TypeDefinition(d) = &source.items[i] {
                if same_text(d.name.as_str(), name) {
                    match found {
                        Some(k) => {
                            let mut message = String::from_str("duplicate type ");
                            message.append(name);
                            let first = match &source.items[k] {
                                Item::TypeDefinition(first) => first.name_span,
                                _ => d.name_span,
                            };
                            return Err(Diagnostic::new(message, first));
                        },
                        None => {
                            found = Some(i);
                        },
                    }
                }
            }
            i = i + 1;
        }
        proof {
            if found is Some {
                let k = found->Some_0 as int;
                assert forall|a: int, b: int| 0 <= a < b < source.items@.len() && defines_type(
                    #[trigger] source.items@[a],
                    name@,
                ) implies !defines_type(#[trigger] source.items@[b], name@) by {
                    if b != k {
                    } else {
                        assert(a != k);
                    }
                }
            }
        }
        let k = match found {
            Some(k) => k,
            None => {
                let mut message = String::from_str("unknown type ");
                message.append(name);
                return Err(Diagnostic::new(message, span));
            },
        };
        assert(defines_type(source.items@[k as int], name@));
        assert(type_defined_once(source.items@, name@));
        let definition = match &source.items[k] {
            Item::TypeDefinition(d) => d,
            _ => vstd::pervasive::unreached(),
        };
        let key = joined("type ", name);
        let ghost entered = key;
        self.enter(key, span)?;
        let ghost inside = *self;
        let mut f: usize = 0;
        while f < definition.fields.len()
            invariant
                self.wf(),
                self.kept(&inside),
                self.grew(&inside),
                depth + 1 == self.stack@.len(),
                builtin_named(name@) is None,
                !listed(old(self).types_done@, name@),
                type_defined_once(source.items@, name@),
                f <= definition.fields@.len(),
            decreases definition.fields@.len() - f,
        {
            self.dependency_type(source, &definition.fields[f].type_ref, depth + 1)?;
            f = f + 1;
        }
        if let Some(variants) = &definition.variants {
            let mut v: usize = 0;
            while v < variants.len()
                invariant
                    self.wf(),
                    self.kept(&inside),
                    self.grew(&inside),
                    depth + 1 == self.stack@.len(),
                    builtin_named(name@) is None,
                    !listed(old(self).types_done@, name@),
                    type_defined_once(source.items@, name@),
                    v <= variants@.len(),
                decreases variants@.len() - v,
            {
                let mut f: usize = 0;
                while f < variants[v].fields.len()
                    invariant
                        self.wf(),
                        self.kept(&inside),
                        self.grew(&inside),
                        depth + 1 == self.stack@.len(),
                        builtin_named(name@) is None,
                        !listed(old(self).types_done@, name@),
                        type_defined_once(source.items@, name@),
                        v < variants@.len(),
                        f <= variants@[v as int].fields@.len(),
                    decreases variants@[v as int].fields@.len() - f,
                {
                    self.dependency_type(source, &variants[v].fields[f].type_ref, depth + 1)?;
                    f = f + 1;
                }
                v = v + 1;
            }
        }
        self.leave(Ghost(entered));
        assert(self.stack@ =~= old(self).stack@);
        let ghost mid = self.types_done@;
        self.types_done.push(String::from_str(name));
        proof {
            assert(prefix_of(mid, self.types_done@));
            assert(self.types_done@[self.types_done@.len() - 1]@ == name@);
        }
        Ok(())
    }

    /// Checks the dependencies of a written type: its named types and the
    /// constants that give its array lengths.
    fn dependency_type(&mut self, source: &Program, ty: &TypeRef, depth: usize) -> (r: Result<(), Diagnostic>)
        requires
            old(self).wf(),
            depth == old(self).stack@.len(),
        ensures
            r is Ok ==> final(self).wf() && final(self).kept(old(self)) && final(self).grew(old(self)),
            r is Ok ==> type_recorded(final(self).types_done@, final(self).lengths@, *ty),
            ty.kind matches TypeRefKind::Named(n) && (builtin_named(n@) is Some || listed(old(self).types_done@, n@))
                ==> r is Ok && *final(self) == *old(self),
        decreases 128 - depth, 2int, type_height(*ty),
    {
        proof {
            lemma_type_height_nonnegative(*ty);
        }
        match &ty.kind {
            TypeRefKind::Named(name) => self.named_type(source, name.as_str(), ty.span, depth),
            TypeRefKind::Array { element, .. } => {
                proof {
                    lemma_type_height_nonnegative(**element);
                }
                self.dependency_type(source, element, depth)
            },
            TypeRefKind::ArrayConstant { element, constant } => {
                proof {
                    lemma_type_height_nonnegative(**element);
                }
                self.dependency_type(source, element, depth)?;
                let ghost mid = *self;
                self.length(source, constant.name.as_str(), constant.span, depth)?;
                proof {
                    lemma_type_recorded_grows(mid.types_done@, mid.lengths@, self.types_done@, self.lengths@, **element);
                }
                Ok(())
            },
        }
    }

    /// The type definition that a constructor path names, and whether it
    /// names one of its variants.
    #[verifier::loop_isolation(false)]
    fn constructed_type(&self, source: &Program, path: &str) -> (r: Option<(usize, bool)>)
        ensures
            r matches Some((k, _)) ==> k < source.items@.len() && source.items@[k as int] is TypeDefinition,
            r matches Some((k, variant)) ==> constructs(source.items@[k as int], path@) == Some(variant)
                && forall|m: int| 0 <= m < k ==> constructs(#[trigger] source.items@[m], path@) is None,
            r is None ==> forall|m: int| 0 <= m < source.items@.len() ==> constructs(#[trigger] source.items@[m], path@) is None,
    {
        proof {
            reveal_strlit("::");
        }
        let mut i: usize = 0;
        while i < source.items.len()
            invariant
                i <= source.items@.len(),
                forall|m: int| 0 <= m < i ==> constructs(#[trigger] source.items@[m], path@) is None,
            decreases source.items@.len() - i,
        {
            if let Item::TypeDefinition(d) = &source.items[i] {
                if same_text(d.name.as_str(), path) {
                    return Some((i, false));
                }
                let prefix = joined(d.name.as_str(), "::");
                if starts_with(path, prefix.as_str()) {
                    let n = path.unicode_len();
                    let suffix = path.substring_char(prefix.unicode_len(), n);
                    proof {
                        reveal_strlit("::");
                    }
                    assert(("::"@).len() == 2);
                    assert(prefix@.len() == d.name@.len() + 2);
                    assert(suffix@ =~= path@.skip(d.name@.len() + 2int));
                    if let Some(variants) = &d.variants {
                        let mut v: usize = 0;
                        while v < variants.len()
                            invariant
                                v <= variants@.len(),
                                i < source.items@.len(),
                                source.items@[i as int] is TypeDefinition,
                                forall|w: int| 0 <= w < v ==> (#[trigger] variants@[w]).name@ != suffix@,
                            decreases variants@.len() - v,
                        {
                            if same_text(variants[v].name.as_str(), suffix) {
                                return Some((i, true));
                            }
                            v = v + 1;
                        }
                    }
                }
            }
            i = i + 1;
        }
        None
    }

    /// Checks a constant's value: only `byte_len` and `array_len` may be
    /// called, every name must be a sound constant or type, and the walk,
    /// defaults included, is bounded by 100000 nodes and nesting 128.
    #[verifier::loop_isolation(false)]
    fn constant_expr(
        &mut self,
        source: &Program,
        expr: &Expr,
        budget: &mut usize,
        nesting: usize,
        depth: usize,
    ) -> (r: Result<(), Diagnostic>)
        requires
            old(self).wf(),
            depth == old(self).stack@.len(),
        ensures
            r is Ok ==> final(self).wf() && final(self).kept(old(self)) && final(self).grew(old(self)),
            *final(budget) <= *old(budget),
            *old(budget) == 0 || nesting >= 128 ==> (r matches Err(e) && e.message@
                == "array length constant expansion exceeds 100000 nodes or depth 128"@ && e.span == Some(expr.span)),
            *old(budget) > 0 && nesting < 128 ==> *final(budget) < *old(budget),
            *old(budget) > 0 && nesting < 128 && dependency_leaf(*expr) ==> r is Ok && *final(self) == *old(self)
                && *final(budget) == *old(budget) - 1,
            *old(budget) > 0 && nesting < 128 && (expr.kind matches ExprKind::Call { name, .. } && name@ != "byte_len"@
                && name@ != "array_len"@) ==> (r matches Err(e) && e.message@
                == "function calls are not allowed in constant expressions"@ && e.span == Some(expr.span)),
            r is Ok && expr.kind is Variable ==> listed(final(self).constants_done@, expr.kind->Variable_0@),
            r is Ok ==> constant_calls_allowed(*expr),
            r is Ok ==> *final(budget) == *old(budget) - visited_nodes(source.items@, *expr, nesting as int),
        decreases 128 - depth, 3int, 128 - nesting,
    {
        if *budget == 0 || nesting >= 128 {
            return Err(Diagnostic::new(
                String::from_str("array length constant expansion exceeds 100000 nodes or depth 128"),
                expr.span,
            ));
        }
        *budget = *budget - 1;
        let ghost start = *self;
        let ghost b1 = *budget;
        match &expr.kind {
            ExprKind::Variable(name) => self.constant(source, name.as_str(), expr.span, depth),
            ExprKind::Call { name, arguments, .. } => {
                if !same_text(name.as_str(), "byte_len") && !same_text(name.as_str(), "array_len") {
                    return Err(Diagnostic::new(
                        String::from_str("function calls are not allowed in constant expressions"),
                        expr.span,
                    ));
                }
                let mut i: usize = 0;
                while i < arguments.len()
                    invariant
                        self.wf(),
                        self.kept(&start),
                        self.grew(&start),
                        *budget <= b1,
                        depth == self.stack@.len(),
                        nesting < 128,
                        i <= arguments@.len(),
                        forall|j: int| 0 <= j < i ==> constant_calls_allowed(#[trigger] arguments@[j]),
                        *budget == b1 - list_nodes(source.items@, arguments@.take(i as int), nesting + 1),
                    decreases arguments@.len() - i,
                {
                    self.constant_expr(source, &arguments[i], budget, nesting + 1, depth)?;
                    proof {
                        assert(arguments@.take(i + 1).drop_last() =~= arguments@.take(i as int));
                    }
                    i = i + 1;
                }
                assert(arguments@.take(arguments@.len() as int) =~= arguments@);
                Ok(())
            },
            ExprKind::Construct { type_path, type_path_span, base, fields } => {
                let (k, variant) = match self.constructed_type(source, type_path.as_str()) {
                    Some(found) => found,
                    None => {
                        let mut message = String::from_str("unknown type or variant ");
                        message.append(type_path.as_str());
                        return Err(Diagnostic::new(message, *type_path_span));
                    },
                };
                let root = match &source.items[k] {
                    Item::TypeDefinition(d) => d,
                    _ => vstd::pervasive::unreached(),
                };
                self.named_type(source, root.name.as_str(), *type_path_span, depth)?;
                match base {
                    Some(b) => {
                        self.constant_expr(source, b, budget, nesting + 1, depth)?;
                    },
                    None => {},
                }
                let ghost b2 = *budget;
                let ghost values = field_exprs(fields@);
                let mut i: usize = 0;
                while i < fields.len()
                    invariant
                        self.wf(),
                        self.kept(&start),
                        self.grew(&start),
                        *budget <= b1,
                        depth == self.stack@.len(),
                        nesting < 128,
                        i <= fields@.len(),
                        forall|j: int| 0 <= j < i ==> constant_calls_allowed(#[trigger] fields@[j].value),
                        *budget == b2 - list_nodes(source.items@, values.take(i as int), nesting + 1),
                    decreases fields@.len() - i,
                {
                    self.constant_expr(source, &fields[i].value, budget, nesting + 1, depth)?;
                    proof {
                        assert(values.take(i + 1).drop_last() =~= values.take(i as int));
                        assert(values.take(i + 1).last() == fields@[i as int].value);
                    }
                    i = i + 1;
                }
                assert(values.take(fields@.len() as int) =~= values);
                let ghost b3 = *budget;
                proof {
                    lemma_first_constructed(source.items@, type_path@, k as int, 0);
                }
                if base.is_none() && !variant {
                    let mut f: usize = 0;
                    while f < root.fields.len()
                        invariant
                            self.wf(),
                            self.kept(&start),
                            self.grew(&start),
                            *budget <= b1,
                            depth == self.stack@.len(),
                            nesting < 128,
                            f <= root.fields@.len(),
                            *budget == b3 - list_nodes(source.items@, omitted_defaults(root.fields@.take(f as int), fields@), nesting + 1),
                        decreases root.fields@.len() - f,
                    {
                        let mut given = false;
                        let mut g: usize = 0;
                        while g < fields.len()
                            invariant
                                g <= fields@.len(),
                                f < root.fields@.len(),
                                given <==> exists|h: int| 0 <= h < g && (#[trigger] fields@[h]).name@ == root.fields@[f as int].name@,
                            decreases fields@.len() - g,
                        {
                            if same_text(fields[g].name.as_str(), root.fields[f].name.as_str()) {
                                given = true;
                            }
                            g = g + 1;
                        }
                        proof {
                            assert(root.fields@.take(f + 1).drop_last() =~= root.fields@.take(f as int));
                            assert(root.fields@.take(f + 1).last() == root.fields@[f as int]);
                        }
                        if !given {
                            if let Some(default) = &root.fields[f].default {
                                let ghost before = omitted_defaults(root.fields@.take(f as int), fields@);
                                self.constant_expr(source, default, budget, nesting + 1, depth)?;
                                proof {
                                    assert(omitted_defaults(root.fields@.take(f + 1), fields@) == before.push(*default));
                                    assert(before.push(*default).drop_last() =~= before);
                                }
                            }
                        }
                        f = f + 1;
                    }
                    assert(root.fields@.take(root.fields@.len() as int) =~= root.fields@);
                }
                Ok(())
            },
            ExprKind::Convert { target, value, .. } => {
                self.dependency_type(source, target, depth)?;
                self.constant_expr(source, value, budget, nesting + 1, depth)
            },
            ExprKind::Array(values) => {
                let mut i: usize = 0;
                while i < values.len()
                    invariant
                        self.wf(),
                        self.kept(&start),
                        self.grew(&start),
                        *budget <= b1,
                        depth == self.stack@.len(),
                        nesting < 128,
                        i <= values@.len(),
                        forall|j: int| 0 <= j < i ==> constant_calls_allowed(#[trigger] values@[j]),
                        *budget == b1 - list_nodes(source.items@, values@.take(i as int), nesting + 1),
                    decreases values@.len() - i,
                {
                    self.constant_expr(source, &values[i], budget, nesting + 1, depth)?;
                    proof {
                        assert(values@.take(i + 1).drop_last() =~= values@.take(i as int));
                    }
                    i = i + 1;
                }
                assert(values@.take(values@.len() as int) =~= values@);
                Ok(())
            },
            ExprKind::Unary { value, .. } => self.constant_expr(source, value, budget, nesting + 1, depth),
            ExprKind::FieldAccess { base, .. } => self.constant_expr(source, base, budget, nesting + 1, depth),
            ExprKind::Binary { left, right, .. } => {
                self.constant_expr(source, left, budget, nesting + 1, depth)?;
                self.constant_expr(source, right, budget, nesting + 1, depth)
            },
            ExprKind::Logical { left, right, .. } => {
                self.constant_expr(source, left, budget, nesting + 1, depth)?;
                self.constant_expr(source, right, budget, nesting + 1, depth)
            },
            ExprKind::Index { base, index } => {
                self.constant_expr(source, base, budget, nesting + 1, depth)?;
                self.constant_expr(source, index, budget, nesting + 1, depth)
            },
            _ => Ok(()),
        }
    }
}

impl<'a> Resolver<'a> {
    /// Replaces each constant array length of a written type by its value
    /// and records the use.
    fn resolved_type(&mut self, source: &Program, ty: TypeRef) -> (r: Result<TypeRef, Diagnostic>)
        requires
            old(self).wf(),
            old(self).stack@.len() == 0,
        ensures
            r is Ok ==> final(self).wf() && final(self).kept(old(self)),
            constant_free(ty) ==> r is Ok,
            type_lengths_sound(source.items@, old(self).evaluated@, ty) ==> r is Ok,
            type_lengths_integral(source.items@, old(self).evaluated@, ty) ==> (r matches Err(e) ==> length_value_error(e.message@)),
            r matches Ok(t) ==> constant_free(t) && t.span == ty.span,
            r matches Ok(t) ==> resolved_type(old(self).evaluated@, ty) == Ok::<TypeRef, (Seq<char>, Span)>(t),
            r is Ok ==> use_views(final(self).uses@) == use_views(old(self).uses@) + length_uses(old(self).evaluated@, ty),
        decreases ty,
    {
        let span = ty.span;
        match ty.kind {
            TypeRefKind::Named(name) => Ok(TypeRef { kind: TypeRefKind::Named(name), span }),
            TypeRefKind::Array { element, length } => {
                let element = self.resolved_type(source, *element)?;
                Ok(TypeRef { kind: TypeRefKind::Array { element: Box::new(element), length }, span })
            },
            TypeRefKind::ArrayConstant { element, constant } => {
                let element = self.resolved_type(source, *element)?;
                let length = self.length(source, constant.name.as_str(), constant.span, 0)?;
                let ghost before = self.uses@;
                self.uses.push(LengthUse { length, name: constant.name, span: constant.span });
                proof {
                    assert(use_views(self.uses@) =~= use_views(before).push((length, constant.name@, constant.span)));
                }
                proof {
                    assert forall|i: int| 0 <= i < self.uses@.len() implies constant_length(
                        self.evaluated@,
                        (#[trigger] self.uses@[i]).name@,
                    ) == Ok::<usize, Seq<char>>(self.uses@[i].length) by {
                        if i < before.len() {
                            assert(self.uses@[i] == before[i]);
                        }
                    }
                }
                Ok(TypeRef { kind: TypeRefKind::Array { element: Box::new(element), length }, span })
            },
        }
    }

    /// Resolves an optional written type.
    fn resolved_spec(&mut self, source: &Program, spec: TypeSpec) -> (r: Result<TypeSpec, Diagnostic>)
        requires
            old(self).wf(),
            old(self).stack@.len() == 0,
        ensures
            r is Ok ==> final(self).wf() && final(self).kept(old(self)),
            spec_constant_free(spec) ==> r is Ok,
            spec_type_lengths_sound(source.items@, old(self).evaluated@, spec) ==> r is Ok,
            spec_type_lengths_integral(source.items@, old(self).evaluated@, spec) ==> (r matches Err(e) ==> length_value_error(e.message@)),
            r matches Ok(t) ==> spec_constant_free(t),
            r matches Ok(t) ==> resolves_spec_lengths(old(self).evaluated@, spec, t),
            r is Ok ==> use_views(final(self).uses@) == use_views(old(self).uses@) + spec_uses(old(self).evaluated@, spec),
    {
        match spec {
            TypeSpec::Explicit(ty) => Ok(TypeSpec::Explicit(self.resolved_type(source, ty)?)),
            TypeSpec::Infer => Ok(TypeSpec::Infer),
        }
    }

    /// Resolves the types in every expression of a list.
    #[verifier::loop_isolation(false)]
    fn exprs(&mut self, source: &Program, values: Vec<Expr>) -> (r: Result<Vec<Expr>, Diagnostic>)
        requires
            old(self).wf(),
            old(self).stack@.len() == 0,
        ensures
            r is Ok ==> final(self).wf() && final(self).kept(old(self)),
            (forall|i: int| 0 <= i < values@.len() ==> expr_lengths_resolved(#[trigger] values@[i])) ==> r is Ok,
            (forall|i: int| 0 <= i < values@.len() ==> expr_lengths_sound(source.items@, old(self).evaluated@, #[trigger] values@[i])) ==> r is Ok,
            (forall|i: int| 0 <= i < values@.len() ==> expr_lengths_integral(source.items@, old(self).evaluated@, #[trigger] values@[i])) ==> (r matches Err(e) ==> length_value_error(e.message@)),
            r matches Ok(out) ==> forall|i: int| 0 <= i < out@.len() ==> expr_lengths_resolved(#[trigger] out@[i]),
            r matches Ok(out) ==> out@.len() == values@.len() && forall|i: int|
                0 <= i < values@.len() ==> resolves_expr_lengths(old(self).evaluated@, #[trigger] values@[i], out@[i]),
            r is Ok ==> use_views(final(self).uses@) == use_views(old(self).uses@) + exprs_uses(old(self).evaluated@, values@),
        decreases values,
    {
        let ghost orig = values@;
        let ghost start = *self;
        let mut rest = values;
        let mut out: Vec<Expr> = Vec::new();
        while rest.len() > 0
            invariant
                out@.len() + rest@.len() == orig.len(),
                rest@ == orig.skip(out@.len() as int),
                self.wf(),
                self.kept(&start),
                forall|i: int| 0 <= i < out@.len() ==> expr_lengths_resolved(#[trigger] out@[i]),
                forall|i: int| 0 <= i < out@.len() ==> resolves_expr_lengths(start.evaluated@, #[trigger] orig[i], out@[i]),
                use_views(self.uses@) == use_views(start.uses@) + exprs_uses(start.evaluated@, orig.take(out@.len() as int)),
            decreases rest@.len(),
        {
            let ghost k = out@.len() as int;
            let item = rest.remove(0);
            assert(item == orig[k]);
            assert(rest@ =~= orig.skip(k + 1));
            let ghost u0 = use_views(self.uses@);
            let e = self.expr(source, item)?;
            proof {
                assert(orig.take(k + 1).drop_last() =~= orig.take(k));
                assert(orig.take(k + 1).last() == orig[k]);
                assert(u0 + expr_uses(start.evaluated@, orig[k]) =~= use_views(start.uses@) + exprs_uses(start.evaluated@, orig.take(k + 1)));
            }
            let ghost before = out@;
            out.push(e);
            proof {
                assert forall|i: int| 0 <= i < out@.len() implies resolves_expr_lengths(start.evaluated@, #[trigger] orig[i], out@[i]) by {
                    if i < k {
                        assert(out@[i] == before[i]);
                    }
                }
            }
        }
        assert(orig.take(orig.len() as int) =~= orig);
        Ok(out)
    }

    /// Resolves the types in the values of constructor fields.
    #[verifier::loop_isolation(false)]
    fn field_values(&mut self, source: &Program, fields: Vec<FieldValue>) -> (r: Result<Vec<FieldValue>, Diagnostic>)
        requires
            old(self).wf(),
            old(self).stack@.len() == 0,
        ensures
            r is Ok ==> final(self).wf() && final(self).kept(old(self)),
            (forall|i: int| 0 <= i < fields@.len() ==> expr_lengths_resolved(#[trigger] fields@[i].value)) ==> r is Ok,
            (forall|i: int| 0 <= i < fields@.len() ==> expr_lengths_sound(source.items@, old(self).evaluated@, #[trigger] fields@[i].value)) ==> r is Ok,
            (forall|i: int| 0 <= i < fields@.len() ==> expr_lengths_integral(source.items@, old(self).evaluated@, #[trigger] fields@[i].value)) ==> (r matches Err(e) ==> length_value_error(e.message@)),
            r matches Ok(out) ==> forall|i: int| 0 <= i < out@.len() ==> expr_lengths_resolved((#[trigger] out@[i]).value),
            r matches Ok(out) ==> out@.len() == fields@.len() && forall|i: int|
                0 <= i < fields@.len() ==> out@[i].name@ == (#[trigger] fields@[i]).name@ && resolves_expr_lengths(
                    old(self).evaluated@,
                    fields@[i].value,
                    out@[i].value,
                ),
            r is Ok ==> use_views(final(self).uses@) == use_views(old(self).uses@) + field_values_uses(old(self).evaluated@, fields@),
        decreases fields,
    {
        let ghost orig = fields@;
        let ghost start = *self;
        let mut rest = fields;
        let mut out: Vec<FieldValue> = Vec::new();
        while rest.len() > 0
            invariant
                out@.len() + rest@.len() == orig.len(),
                rest@ == orig.skip(out@.len() as int),
                self.wf(),
                self.kept(&start),
                forall|i: int| 0 <= i < out@.len() ==> expr_lengths_resolved((#[trigger] out@[i]).value),
                forall|i: int| 0 <= i < out@.len() ==> out@[i].name@ == (#[trigger] orig[i]).name@ && resolves_expr_lengths(
                    start.evaluated@,
                    orig[i].value,
                    out@[i].value,
                ),
                use_views(self.uses@) == use_views(start.uses@) + field_values_uses(start.evaluated@, orig.take(out@.len() as int)),
            decreases rest@.len(),
        {
            let ghost k = out@.len() as int;
            let field = rest.remove(0);
            assert(field == orig[k]);
            assert(rest@ =~= orig.skip(k + 1));
            let ghost u0 = use_views(self.uses@);
            let value = self.expr(source, field.value)?;
            proof {
                assert(orig.take(k + 1).drop_last() =~= orig.take(k));
                assert(orig.take(k + 1).last() == orig[k]);
                assert(u0 + expr_uses(start.evaluated@, orig[k].value) =~= use_views(start.uses@) + field_values_uses(start.evaluated@, orig.take(k + 1)));
            }
            let ghost before = out@;
            out.push(FieldValue {
                generated: field.generated,
                name: field.name,
                name_span: field.name_span,
                value,
                span: field.span,
            });
            proof {
                assert forall|i: int| 0 <= i < out@.len() implies out@[i].name@ == (#[trigger] orig[i]).name@
                    && resolves_expr_lengths(start.evaluated@, orig[i].value, out@[i].value) by {
                    if i < k {
                        assert(out@[i] == before[i]);
                    }
                }
                assert forall|i: int| 0 <= i < out@.len() implies expr_lengths_resolved((#[trigger] out@[i]).value) by {
                    if i < k {
                        assert(out@[i] == before[i]);
                    }
                }
            }
        }
        assert(orig.take(orig.len() as int) =~= orig);
        Ok(out)
    }

    /// Resolves the conversion targets of an expression.
    #[verifier::loop_isolation(false)]
    fn expr(&mut self, source: &Program, expr: Expr) -> (r: Result<Expr, Diagnostic>)
        requires
            old(self).wf(),
            old(self).stack@.len() == 0,
        ensures
            r is Ok ==> final(self).wf() && final(self).kept(old(self)),
            expr_lengths_resolved(expr) ==> r is Ok,
            expr_lengths_sound(source.items@, old(self).evaluated@, expr) ==> r is Ok,
            expr_lengths_integral(source.items@, old(self).evaluated@, expr) ==> (r matches Err(e) ==> length_value_error(e.message@)),
            r matches Ok(e) ==> expr_lengths_resolved(e) && e.span == expr.span,
            r matches Ok(e) ==> resolves_expr_lengths(old(self).evaluated@, expr, e),
            r is Ok ==> use_views(final(self).uses@) == use_views(old(self).uses@) + expr_uses(old(self).evaluated@, expr),
        decreases expr,
    {
        let span = expr.span;
        let ghost u0 = use_views(self.uses@);
        let ghost c = self.evaluated@;
        let kind = match expr.kind {
            ExprKind::Convert { mode, target, value, syntax } => {
                let ghost t0 = target;
                let ghost v0 = *value;
                let target = self.resolved_type(source, target)?;
                let value = self.expr(source, *value)?;
                assert(u0 + length_uses(c, t0) + expr_uses(c, v0) =~= u0 + (length_uses(c, t0) + expr_uses(c, v0)));
                ExprKind::Convert { mode, target, value: Box::new(value), syntax }
            },
            ExprKind::Construct { type_path, type_path_span, base, fields } => {
                let ghost b0 = base;
                let ghost f0 = fields@;
                let base = match base {
                    Some(b) => Some(Box::new(self.expr(source, *b)?)),
                    None => None,
                };
                let fields = self.field_values(source, fields)?;
                proof {
                    if let Some(b) = b0 {
                        assert(u0 + expr_uses(c, *b) + field_values_uses(c, f0) =~= u0 + (expr_uses(c, *b) + field_values_uses(c, f0)));
                    }
                }
                ExprKind::Construct { type_path, type_path_span, base, fields }
            },
            ExprKind::Call { name, name_span, arguments } => {
                ExprKind::Call { name, name_span, arguments: self.exprs(source, arguments)? }
            },
            ExprKind::Array(values) => ExprKind::Array(self.exprs(source, values)?),
            ExprKind::Unary { op, value } => ExprKind::Unary { op, value: Box::new(self.expr(source, *value)?) },
            ExprKind::FieldAccess { base, field_name, field_name_span } => {
                ExprKind::FieldAccess { base: Box::new(self.expr(source, *base)?), field_name, field_name_span }
            },
            ExprKind::Binary { op, left, right } => {
                let ghost l0 = *left;
                let ghost r0 = *right;
                let left = self.expr(source, *left)?;
                let right = self.expr(source, *right)?;
                assert(u0 + expr_uses(c, l0) + expr_uses(c, r0) =~= u0 + (expr_uses(c, l0) + expr_uses(c, r0)));
                ExprKind::Binary { op, left: Box::new(left), right: Box::new(right) }
            },
            ExprKind::Logical { op, left, right } => {
                let ghost l0 = *left;
                let ghost r0 = *right;
                let left = self.expr(source, *left)?;
                let right = self.expr(source, *right)?;
                assert(u0 + expr_uses(c, l0) + expr_uses(c, r0) =~= u0 + (expr_uses(c, l0) + expr_uses(c, r0)));
                ExprKind::Logical { op, left: Box::new(left), right: Box::new(right) }
            },
            ExprKind::Index { base, index } => {
                let ghost l0 = *base;
                let ghost r0 = *index;
                let base = self.expr(source, *base)?;
                let index = self.expr(source, *index)?;
                assert(u0 + expr_uses(c, l0) + expr_uses(c, r0) =~= u0 + (expr_uses(c, l0) + expr_uses(c, r0)));
                ExprKind::Index { base: Box::new(base), index: Box::new(index) }
            },
            other => {
                assert(use_views(self.uses@) =~= u0 + expr_uses(c, expr));
                other
            },
        };
        let r = Expr { kind, span };
        assert(expr_lengths_resolved(r));
        Ok(r)
    }

    /// Resolves the types of a statement list, in order.
    #[verifier::loop_isolation(false)]
    fn statements(&mut self, source: &Program, body: Vec<Stmt>) -> (r: Result<Vec<Stmt>, Diagnostic>)
        requires
            old(self).wf(),
            old(self).stack@.len() == 0,
        ensures
            r is Ok ==> final(self).wf() && final(self).kept(old(self)),
            (forall|i: int| 0 <= i < body@.len() ==> stmt_lengths_resolved(#[trigger] body@[i])) ==> r is Ok,
            (forall|i: int| 0 <= i < body@.len() ==> stmt_lengths_sound(source.items@, old(self).evaluated@, #[trigger] body@[i])) ==> r is Ok,
            (forall|i: int| 0 <= i < body@.len() ==> stmt_lengths_integral(source.items@, old(self).evaluated@, #[trigger] body@[i])) ==> (r matches Err(e) ==> length_value_error(e.message@)),
            r matches Ok(out) ==> forall|i: int| 0 <= i < out@.len() ==> stmt_lengths_resolved(#[trigger] out@[i]),
            r matches Ok(out) ==> out@.len() == body@.len() && forall|i: int|
                0 <= i < body@.len() ==> resolves_stmt_lengths(old(self).evaluated@, #[trigger] body@[i], out@[i]),
            r is Ok ==> use_views(final(self).uses@) == use_views(old(self).uses@) + stmts_uses(old(self).evaluated@, body@),
        decreases body,
    {
        let ghost orig = body@;
        let ghost start = *self;
        let mut rest = body;
        let mut out: Vec<Stmt> = Vec::new();
        while rest.len() > 0
            invariant
                out@.len() + rest@.len() == orig.len(),
                rest@ == orig.skip(out@.len() as int),
                self.wf(),
                self.kept(&start),
                forall|i: int| 0 <= i < out@.len() ==> stmt_lengths_resolved(#[trigger] out@[i]),
                forall|i: int| 0 <= i < out@.len() ==> resolves_stmt_lengths(start.evaluated@, #[trigger] orig[i], out@[i]),
                use_views(self.uses@) == use_views(start.uses@) + stmts_uses(start.evaluated@, orig.take(out@.len() as int)),
            decreases rest@.len(),
        {
            let ghost k = out@.len() as int;
            let item = rest.remove(0);
            assert(item == orig[k]);
            assert(rest@ =~= orig.skip(k + 1));
            let ghost u0 = use_views(self.uses@);
            let statement = self.statement(source, item)?;
            proof {
                assert(orig.take(k + 1).drop_last() =~= orig.take(k));
                assert(orig.take(k + 1).last() == orig[k]);
                assert(u0 + stmt_uses(start.evaluated@, orig[k]) =~= use_views(start.uses@) + stmts_uses(start.evaluated@, orig.take(k + 1)));
            }
            let ghost before = out@;
            out.push(statement);
            proof {
                assert forall|i: int| 0 <= i < out@.len() implies resolves_stmt_lengths(start.evaluated@, #[trigger] orig[i], out@[i]) by {
                    if i < k {
                        assert(out@[i] == before[i]);
                    }
                }
            }
        }
        assert(orig.take(orig.len() as int) =~= orig);
        Ok(out)
    }

    /// Resolves the types in the bodies of `match` arms.
    #[verifier::loop_isolation(false)]
    fn arms(&mut self, source: &Program, arms: Vec<MatchArm>) -> (r: Result<Vec<MatchArm>, Diagnostic>)
        requires
            old(self).wf(),
            old(self).stack@.len() == 0,
        ensures
            r is Ok ==> final(self).wf() && final(self).kept(old(self)),
            (forall|i: int, j: int| 0 <= i < arms@.len() && 0 <= j < arms@[i].body@.len()
                ==> stmt_lengths_resolved(#[trigger] arms@[i].body@[j])) ==> r is Ok,
            (forall|i: int, j: int| 0 <= i < arms@.len() && 0 <= j < arms@[i].body@.len() ==> stmt_lengths_sound(source.items@, old(self).evaluated@, #[trigger] arms@[i].body@[j])) ==> r is Ok,
            (forall|i: int, j: int| 0 <= i < arms@.len() && 0 <= j < arms@[i].body@.len() ==> stmt_lengths_integral(source.items@, old(self).evaluated@, #[trigger] arms@[i].body@[j])) ==> (r matches Err(e) ==> length_value_error(e.message@)),
            r matches Ok(out) ==> forall|i: int, j: int| 0 <= i < out@.len() && 0 <= j < out@[i].body@.len()
                ==> stmt_lengths_resolved(#[trigger] out@[i].body@[j]),
            r matches Ok(out) ==> out@.len() == arms@.len() && forall|i: int| 0 <= i < arms@.len() ==> {
                &&& out@[i].variant@ == (#[trigger] arms@[i]).variant@
                &&& out@[i].body@.len() == arms@[i].body@.len()
                &&& forall|j: int|
                    0 <= j < arms@[i].body@.len() ==> resolves_stmt_lengths(
                        old(self).evaluated@,
                        #[trigger] arms@[i].body@[j],
                        out@[i].body@[j],
                    )
            },
            r is Ok ==> use_views(final(self).uses@) == use_views(old(self).uses@) + arms_uses(old(self).evaluated@, arms@),
        decreases arms,
    {
        let ghost orig = arms@;
        let ghost start = *self;
        let mut rest = arms;
        let mut out: Vec<MatchArm> = Vec::new();
        while rest.len() > 0
            invariant
                out@.len() + rest@.len() == orig.len(),
                rest@ == orig.skip(out@.len() as int),
                self.wf(),
                self.kept(&start),
                forall|i: int, j: int| 0 <= i < out@.len() && 0 <= j < out@[i].body@.len()
                    ==> stmt_lengths_resolved(#[trigger] out@[i].body@[j]),
                forall|i: int| 0 <= i < out@.len() ==> {
                    &&& out@[i].variant@ == (#[trigger] orig[i]).variant@
                    &&& out@[i].body@.len() == orig[i].body@.len()
                    &&& forall|j: int|
                        0 <= j < orig[i].body@.len() ==> resolves_stmt_lengths(
                            start.evaluated@,
                            #[trigger] orig[i].body@[j],
                            out@[i].body@[j],
                        )
                },
                use_views(self.uses@) == use_views(start.uses@) + arms_uses(start.evaluated@, orig.take(out@.len() as int)),
            decreases rest@.len(),
        {
            let ghost k = out@.len() as int;
            let arm = rest.remove(0);
            assert(arm == orig[k]);
            assert(rest@ =~= orig.skip(k + 1));
            let ghost u0 = use_views(self.uses@);
            let body = self.statements(source, arm.body)?;
            proof {
                assert(orig.take(k + 1).drop_last() =~= orig.take(k));
                assert(orig.take(k + 1).last() == orig[k]);
                assert(u0 + stmts_uses(start.evaluated@, orig[k].body@) =~= use_views(start.uses@) + arms_uses(start.evaluated@, orig.take(k + 1)));
            }
            let ghost before = out@;
            out.push(MatchArm { variant: arm.variant, variant_span: arm.variant_span, fields: arm.fields, body, span: arm.span });
            proof {
                assert forall|i: int, j: int| 0 <= i < out@.len() && 0 <= j < out@[i].body@.len()
                    implies stmt_lengths_resolved(#[trigger] out@[i].body@[j]) by {
                    if i < before.len() {
                        assert(out@[i] == before[i]);
                    }
                }
                assert forall|i: int| 0 <= i < out@.len() implies {
                    &&& out@[i].variant@ == (#[trigger] orig[i]).variant@
                    &&& out@[i].body@.len() == orig[i].body@.len()
                    &&& forall|j: int|
                        0 <= j < orig[i].body@.len() ==> resolves_stmt_lengths(
                            start.evaluated@,
                            #[trigger] orig[i].body@[j],
                            out@[i].body@[j],
                        )
                } by {
                    if i < before.len() {
                        assert(out@[i] == before[i]);
                    }
                }
            }
        }
        assert(orig.take(orig.len() as int) =~= orig);
        Ok(out)
    }

    /// Resolves the types in the index expressions of an assignment target.
    #[verifier::loop_isolation(false)]
    fn projections(&mut self, source: &Program, projections: Vec<AssignmentProjection>) -> (r: Result<
        Vec<AssignmentProjection>,
        Diagnostic,
    >)
        requires
            old(self).wf(),
            old(self).stack@.len() == 0,
        ensures
            r is Ok ==> final(self).wf() && final(self).kept(old(self)),
            (forall|i: int| 0 <= i < projections@.len() ==> expr_lengths_resolved((#[trigger] projections@[i])->index)) ==> r is Ok,
            (forall|i: int| 0 <= i < projections@.len() ==> expr_lengths_sound(source.items@, old(self).evaluated@, (#[trigger] projections@[i])->index)) ==> r is Ok,
            (forall|i: int| 0 <= i < projections@.len() ==> expr_lengths_integral(source.items@, old(self).evaluated@, (#[trigger] projections@[i])->index)) ==> (r matches Err(e) ==> length_value_error(e.message@)),
            r matches Ok(out) ==> forall|i: int| 0 <= i < out@.len() ==> expr_lengths_resolved((#[trigger] out@[i])->index),
            r matches Ok(out) ==> out@.len() == projections@.len() && forall|i: int|
                0 <= i < projections@.len() ==> resolves_expr_lengths(
                    old(self).evaluated@,
                    (#[trigger] projections@[i])->index,
                    out@[i]->index,
                ),
            r is Ok ==> use_views(final(self).uses@) == use_views(old(self).uses@) + projections_uses(old(self).evaluated@, projections@),
    {
        let ghost orig = projections@;
        let ghost start = *self;
        let mut rest = projections;
        let mut out: Vec<AssignmentProjection> = Vec::new();
        while rest.len() > 0
            invariant
                out@.len() + rest@.len() == orig.len(),
                rest@ == orig.skip(out@.len() as int),
                self.wf(),
                self.kept(&start),
                forall|i: int| 0 <= i < out@.len() ==> expr_lengths_resolved((#[trigger] out@[i])->index),
                forall|i: int| 0 <= i < out@.len() ==> resolves_expr_lengths(
                    start.evaluated@,
                    (#[trigger] orig[i])->index,
                    out@[i]->index,
                ),
                use_views(self.uses@) == use_views(start.uses@) + projections_uses(start.evaluated@, orig.take(out@.len() as int)),
            decreases rest@.len(),
        {
            let ghost k = out@.len() as int;
            let projection = rest.remove(0);
            assert(projection == orig[k]);
            assert(rest@ =~= orig.skip(k + 1));
            let ghost before = out@;
            let ghost u0 = use_views(self.uses@);
            match projection {
                AssignmentProjection::Index { index, span } => {
                    let index = self.expr(source, index)?;
                    proof {
                        assert(orig.take(k + 1).drop_last() =~= orig.take(k));
                        assert(orig.take(k + 1).last() == orig[k]);
                        assert(u0 + expr_uses(start.evaluated@, orig[k]->index) =~= use_views(start.uses@) + projections_uses(start.evaluated@, orig.take(k + 1)));
                    }
                    out.push(AssignmentProjection::Index { index, span });
                },
            }
            proof {
                assert forall|i: int| 0 <= i < out@.len() implies resolves_expr_lengths(
                    start.evaluated@,
                    (#[trigger] orig[i])->index,
                    out@[i]->index,
                ) by {
                    if i < k {
                        assert(out@[i] == before[i]);
                    }
                }
            }
        }
        assert(orig.take(orig.len() as int) =~= orig);
        Ok(out)
    }

    /// Resolves the written type of an iteration binding.
    fn iteration_binding(&mut self, source: &Program, binding: IterationBinding) -> (r: Result<IterationBinding, Diagnostic>)
        requires
            old(self).wf(),
            old(self).stack@.len() == 0,
        ensures
            r is Ok ==> final(self).wf() && final(self).kept(old(self)),
            spec_constant_free(binding.type_spec) ==> r is Ok,
            spec_type_lengths_sound(source.items@, old(self).evaluated@, binding.type_spec) ==> r is Ok,
            spec_type_lengths_integral(source.items@, old(self).evaluated@, binding.type_spec) ==> (r matches Err(e) ==> length_value_error(e.message@)),
            r matches Ok(b) ==> spec_constant_free(b.type_spec),
            r matches Ok(b) ==> resolves_binding_lengths(old(self).evaluated@, binding, b),
            r is Ok ==> use_views(final(self).uses@) == use_views(old(self).uses@) + spec_uses(old(self).evaluated@, binding.type_spec),
    {
        let type_spec = self.resolved_spec(source, binding.type_spec)?;
        Ok(IterationBinding { mutable: binding.mutable, name: binding.name, type_spec, span: binding.span })
    }

    /// Resolves the written types of a statement.
    #[verifier::loop_isolation(false)]
    fn statement(&mut self, source: &Program, statement: Stmt) -> (r: Result<Stmt, Diagnostic>)
        requires
            old(self).wf(),
            old(self).stack@.len() == 0,
        ensures
            r is Ok ==> final(self).wf() && final(self).kept(old(self)),
            stmt_lengths_resolved(statement) ==> r is Ok,
            stmt_lengths_sound(source.items@, old(self).evaluated@, statement) ==> r is Ok,
            stmt_lengths_integral(source.items@, old(self).evaluated@, statement) ==> (r matches Err(e) ==> length_value_error(e.message@)),
            r matches Ok(s) ==> stmt_lengths_resolved(s) && s.span == statement.span,
            r matches Ok(s) ==> resolves_stmt_lengths(old(self).evaluated@, statement, s),
            r is Ok ==> use_views(final(self).uses@) == use_views(old(self).uses@) + stmt_uses(old(self).evaluated@, statement),
        decreases statement,
    {
        let span = statement.span;
        let ghost u0 = use_views(self.uses@);
        let ghost c = self.evaluated@;
        let ghost whole = statement;
        let kind = match statement.kind {
            StmtKind::Block(body) => StmtKind::Block(self.statements(source, body)?),
            StmtKind::Binding { mutable, name, type_spec, value } => {
                let ghost a = spec_uses(c, type_spec);
                let ghost b = expr_uses(c, value);
                let type_spec = self.resolved_spec(source, type_spec)?;
                let value = self.expr(source, value)?;
                assert(u0 + a + b =~= u0 + (a + b));
                StmtKind::Binding { mutable, name, type_spec, value }
            },
            StmtKind::Assignment { target, value } => {
                let ghost a = projections_uses(c, target.projections@);
                let ghost b = expr_uses(c, value);
                let projections = self.projections(source, target.projections)?;
                let value = self.expr(source, value)?;
                assert(u0 + a + b =~= u0 + (a + b));
                StmtKind::Assignment {
                    target: AssignmentTarget {
                        name: target.name,
                        name_span: target.name_span,
                        projections,
                        span: target.span,
                    },
                    value,
                }
            },
            StmtKind::Print { value } => StmtKind::Print { value: self.expr(source, value)? },
            StmtKind::Call { value } => StmtKind::Call { value: self.expr(source, value)? },
            StmtKind::Return { value } => StmtKind::Return {
                value: match value {
                    Some(v) => Some(self.expr(source, v)?),
                    None => {
                        assert(use_views(self.uses@) =~= u0 + stmt_uses(c, whole));
                        None
                    },
                },
            },
            StmtKind::If { condition, then_body, else_body } => {
                let ghost a = expr_uses(c, condition);
                let ghost b = stmts_uses(c, then_body@);
                let ghost d = stmts_uses(c, else_body@);
                let condition = self.expr(source, condition)?;
                let then_body = self.statements(source, then_body)?;
                let else_body = self.statements(source, else_body)?;
                assert(u0 + a + b + d =~= u0 + (a + b + d));
                StmtKind::If { condition, then_body, else_body }
            },
            StmtKind::While { condition, body } => {
                let ghost a = expr_uses(c, condition);
                let ghost b = stmts_uses(c, body@);
                let condition = self.expr(source, condition)?;
                let body = self.statements(source, body)?;
                assert(u0 + a + b =~= u0 + (a + b));
                StmtKind::While { condition, body }
            },
            StmtKind::For { initializer, condition, update, body } => {
                let ghost a = stmt_uses(c, *initializer);
                let ghost b = expr_uses(c, condition);
                let ghost d = stmt_uses(c, *update);
                let ghost g = stmts_uses(c, body@);
                let initializer = self.statement(source, *initializer)?;
                let condition = self.expr(source, condition)?;
                let update = self.statement(source, *update)?;
                let body = self.statements(source, body)?;
                assert(u0 + a + b + d + g =~= u0 + (a + b + d + g));
                StmtKind::For { initializer: Box::new(initializer), condition, update: Box::new(update), body }
            },
            StmtKind::ForEach { index, element, value, body, header_span } => {
                let ghost a = index_uses(c, index);
                let ghost b = spec_uses(c, element.type_spec);
                let ghost d = expr_uses(c, value);
                let ghost g = stmts_uses(c, body@);
                let index = match index {
                    Some(b) => Some(self.iteration_binding(source, b)?),
                    None => None,
                };
                assert(use_views(self.uses@) =~= u0 + a);
                let element = self.iteration_binding(source, element)?;
                let value = self.expr(source, value)?;
                let body = self.statements(source, body)?;
                assert(u0 + a + b + d + g =~= u0 + (a + b + d + g));
                StmtKind::ForEach { index, element, value, body, header_span }
            },
            StmtKind::Match { value, arms } => {
                let ghost a = expr_uses(c, value);
                let ghost b = arms_uses(c, arms@);
                let value = self.expr(source, value)?;
                let arms = self.arms(source, arms)?;
                assert(u0 + a + b =~= u0 + (a + b));
                StmtKind::Match { value, arms }
            },
            StmtKind::Break => {
                assert(use_views(self.uses@) =~= u0 + stmt_uses(c, whole));
                StmtKind::Break
            },
            StmtKind::Continue => {
                assert(use_views(self.uses@) =~= u0 + stmt_uses(c, whole));
                StmtKind::Continue
            },
        };
        let r = Stmt { kind, span };
        assert(stmt_lengths_resolved(r));
        Ok(r)
    }

    /// Resolves the types of fields and the types in their defaults.
    #[verifier::loop_isolation(false)]
    fn fields(&mut self, source: &Program, fields: Vec<FieldDefinition>) -> (r: Result<Vec<FieldDefinition>, Diagnostic>)
        requires
            old(self).wf(),
            old(self).stack@.len() == 0,
        ensures
            r is Ok ==> final(self).wf() && final(self).kept(old(self)),
            fields_lengths_resolved(fields@) ==> r is Ok,
            fields_lengths_sound(source.items@, old(self).evaluated@, fields@) ==> r is Ok,
            fields_lengths_integral(source.items@, old(self).evaluated@, fields@) ==> (r matches Err(e) ==> length_value_error(e.message@)),
            r matches Ok(out) ==> fields_lengths_resolved(out@),
            r matches Ok(out) ==> resolves_fields_lengths(old(self).evaluated@, fields@, out@),
            r is Ok ==> use_views(final(self).uses@) == use_views(old(self).uses@) + fields_uses(old(self).evaluated@, fields@),
    {
        let ghost orig = fields@;
        let ghost start = *self;
        let mut rest = fields;
        let mut out: Vec<FieldDefinition> = Vec::new();
        while rest.len() > 0
            invariant
                out@.len() + rest@.len() == orig.len(),
                rest@ == orig.skip(out@.len() as int),
                self.wf(),
                self.kept(&start),
                fields_lengths_resolved(out@),
                resolves_fields_lengths(start.evaluated@, orig.take(out@.len() as int), out@),
                use_views(self.uses@) == use_views(start.uses@) + fields_uses(start.evaluated@, orig.take(out@.len() as int)),
            decreases rest@.len(),
        {
            let ghost k = out@.len() as int;
            let field = rest.remove(0);
            assert(field == orig[k]);
            assert(rest@ =~= orig.skip(k + 1));
            let ghost u0 = use_views(self.uses@);
            let ghost a = length_uses(start.evaluated@, field.type_ref);
            let type_ref = self.resolved_type(source, field.type_ref)?;
            let default = match field.default {
                Some(v) => Some(self.expr(source, v)?),
                None => None,
            };
            proof {
                assert(orig.take(k + 1).drop_last() =~= orig.take(k));
                assert(orig.take(k + 1).last() == orig[k]);
                let b = match orig[k].default {
                    Some(v) => expr_uses(start.evaluated@, v),
                    None => Seq::empty(),
                };
                assert(use_views(self.uses@) =~= u0 + a + b);
                assert(u0 + a + b =~= use_views(start.uses@) + fields_uses(start.evaluated@, orig.take(k + 1)));
            }
            let ghost before = out@;
            out.push(FieldDefinition { name: field.name, name_span: field.name_span, type_ref, default, span: field.span });
            proof {
                assert forall|i: int| 0 <= i < out@.len() implies {
                    &&& constant_free((#[trigger] out@[i]).type_ref)
                    &&& (out@[i].default matches Some(v) ==> expr_lengths_resolved(v))
                } by {
                    if i < before.len() {
                        assert(out@[i] == before[i]);
                    }
                }
                let ghost done = orig.take(k + 1);
                assert forall|i: int| 0 <= i < done.len() implies {
                    &&& out@[i].name@ == (#[trigger] done[i]).name@
                    &&& resolved_type(start.evaluated@, done[i].type_ref) == Ok::<TypeRef, (Seq<char>, Span)>(out@[i].type_ref)
                    &&& match done[i].default {
                        Some(x) => (out@[i].default matches Some(y) && resolves_expr_lengths(start.evaluated@, x, y)),
                        None => out@[i].default is None,
                    }
                } by {
                    if i < k {
                        assert(out@[i] == before[i]);
                        assert(done[i] == orig.take(k)[i]);
                    }
                }
            }
        }
        assert(orig.take(orig.len() as int) =~= orig);
        assert(orig.take(orig.len() as int) =~= orig);
        Ok(out)
    }

    /// Resolves the written types of an item.
    #[verifier::loop_isolation(false)]
    fn item(&mut self, source: &Program, item: Item) -> (r: Result<Item, Diagnostic>)
        requires
            old(self).wf(),
            old(self).stack@.len() == 0,
        ensures
            r is Ok ==> final(self).wf() && final(self).kept(old(self)),
            item_lengths_resolved(item) ==> r is Ok,
            item_lengths_sound(source.items@, old(self).evaluated@, item) ==> r is Ok,
            item_lengths_integral(source.items@, old(self).evaluated@, item) ==> (r matches Err(e) ==> length_value_error(e.message@)),
            r matches Ok(out) ==> item_lengths_resolved(out) && same_declaration(out, item),
            r matches Ok(out) ==> resolves_item_lengths(old(self).evaluated@, item, out),
            r is Ok ==> use_views(final(self).uses@) == use_views(old(self).uses@) + item_uses(old(self).evaluated@, item),
    {
        let ghost u0 = use_views(self.uses@);
        let ghost c = self.evaluated@;
        match item {
            Item::ConstantDefinition(d) => {
                let ghost a = length_uses(c, d.type_ref);
                let ghost b = expr_uses(c, d.value);
                let type_ref = self.resolved_type(source, d.type_ref)?;
                let value = self.expr(source, d.value)?;
                assert(u0 + a + b =~= u0 + (a + b));
                Ok(Item::ConstantDefinition(ConstantDefinition {
                    name: d.name,
                    name_span: d.name_span,
                    type_ref,
                    value,
                    span: d.span,
                }))
            },
            Item::TypeDefinition(d) => {
                let ghost a = fields_uses(c, d.fields@);
                let ghost b = match d.variants {
                    Some(ref vs) => variants_uses(c, vs@),
                    None => Seq::empty(),
                };
                let fields = self.fields(source, d.fields)?;
                let ghost u1 = use_views(self.uses@);
                let variants = match d.variants {
                    Some(variants) => {
                        let ghost orig = variants@;
                        let ghost start = *self;
                        let mut rest = variants;
                        let mut out: Vec<VariantDefinition> = Vec::new();
                        while rest.len() > 0
                            invariant
                                out@.len() + rest@.len() == orig.len(),
                                rest@ == orig.skip(out@.len() as int),
                                self.wf(),
                                self.kept(&start),
                                forall|i: int| 0 <= i < out@.len() ==> fields_lengths_resolved((#[trigger] out@[i]).fields@),
                                forall|i: int| 0 <= i < out@.len() ==> out@[i].name@ == (#[trigger] orig[i]).name@
                                    && resolves_fields_lengths(start.evaluated@, orig[i].fields@, out@[i].fields@),
                                use_views(self.uses@) == u1 + variants_uses(c, orig.take(out@.len() as int)),
                            decreases rest@.len(),
                        {
                            let ghost k = out@.len() as int;
                            let variant = rest.remove(0);
                            assert(variant == orig[k]);
                            assert(rest@ =~= orig.skip(k + 1));
                            let ghost uk = use_views(self.uses@);
                            assert(orig.take(k + 1).drop_last() =~= orig.take(k));
                            assert(orig.take(k + 1).last() == orig[k]);
                            assert(uk + fields_uses(c, orig[k].fields@) =~= u1 + variants_uses(c, orig.take(k + 1)));
                            let fields = self.fields(source, variant.fields)?;
                            let ghost before = out@;
                            out.push(VariantDefinition {
                                name: variant.name,
                                name_span: variant.name_span,
                                fields,
                                span: variant.span,
                            });
                            proof {
                                assert forall|i: int| 0 <= i < out@.len() implies out@[i].name@ == (#[trigger] orig[i]).name@
                                    && resolves_fields_lengths(start.evaluated@, orig[i].fields@, out@[i].fields@) by {
                                    if i < k {
                                        assert(out@[i] == before[i]);
                                    }
                                }
                                assert forall|i: int| 0 <= i < out@.len() implies fields_lengths_resolved((#[trigger] out@[i]).fields@) by {
                                    if i < k {
                                        assert(out@[i] == before[i]);
                                    }
                                }
                            }
                        }
                        assert(orig.take(orig.len() as int) =~= orig);
                        Some(out)
                    },
                    None => {
                        assert(use_views(self.uses@) =~= u1 + b);
                        None
                    },
                };
                assert(u0 + a + b =~= u0 + (a + b));
                Ok(Item::TypeDefinition(TypeDefinition { variants, name: d.name, name_span: d.name_span, fields, span: d.span }))
            },
            Item::FunctionDefinition(d) => {
                let ghost a = parameters_uses(c, d.parameters@);
                let ghost b = match d.return_type {
                    ReturnTypeRef::Value(ref t) => length_uses(c, *t),
                    ReturnTypeRef::Void(_) => Seq::empty(),
                };
                let ghost g = stmts_uses(c, d.body@);
                let ghost orig = d.parameters@;
                let ghost start = *self;
                let mut rest = d.parameters;
                let mut parameters: Vec<Parameter> = Vec::new();
                while rest.len() > 0
                    invariant
                        parameters@.len() + rest@.len() == orig.len(),
                        rest@ == orig.skip(parameters@.len() as int),
                        self.wf(),
                        self.kept(&start),
                        forall|i: int| 0 <= i < parameters@.len() ==> constant_free((#[trigger] parameters@[i]).type_ref),
                        forall|i: int| 0 <= i < parameters@.len() ==> parameters@[i].name@ == (#[trigger] orig[i]).name@
                            && resolved_type(start.evaluated@, orig[i].type_ref) == Ok::<TypeRef, (Seq<char>, Span)>(
                            parameters@[i].type_ref,
                        ),
                        use_views(self.uses@) == u0 + parameters_uses(c, orig.take(parameters@.len() as int)),
                    decreases rest@.len(),
                {
                    let ghost k = parameters@.len() as int;
                    let p = rest.remove(0);
                    assert(p == orig[k]);
                    assert(rest@ =~= orig.skip(k + 1));
                    let ghost uk = use_views(self.uses@);
                    assert(orig.take(k + 1).drop_last() =~= orig.take(k));
                    assert(orig.take(k + 1).last() == orig[k]);
                    assert(uk + length_uses(c, orig[k].type_ref) =~= u0 + parameters_uses(c, orig.take(k + 1)));
                    let type_ref = self.resolved_type(source, p.type_ref)?;
                    let ghost before = parameters@;
                    parameters.push(Parameter { name: p.name, name_span: p.name_span, type_ref, span: p.span });
                    proof {
                        assert forall|i: int| 0 <= i < parameters@.len() implies parameters@[i].name@ == (#[trigger] orig[i]).name@
                            && resolved_type(start.evaluated@, orig[i].type_ref) == Ok::<TypeRef, (Seq<char>, Span)>(
                            parameters@[i].type_ref,
                        ) && constant_free(parameters@[i].type_ref) by {
                            if i < k {
                                assert(parameters@[i] == before[i]);
                            }
                        }
                    }
                }
                assert(orig.take(orig.len() as int) =~= orig);
                let ghost u1 = use_views(self.uses@);
                let return_type = match d.return_type {
                    ReturnTypeRef::Void(s) => ReturnTypeRef::Void(s),
                    ReturnTypeRef::Value(ty) => ReturnTypeRef::Value(self.resolved_type(source, ty)?),
                };
                assert(use_views(self.uses@) =~= u1 + b);
                let body = self.statements(source, d.body)?;
                assert(u0 + a + b + g =~= u0 + (a + b + g));
                Ok(Item::FunctionDefinition(FunctionDefinition {
                    generic_parameters: d.generic_parameters,
                    name: d.name,
                    name_span: d.name_span,
                    parameters,
                    return_type,
                    body,
                    span: d.span,
                }))
            },
            Item::Statement(s) => Ok(Item::Statement(self.statement(source, s)?)),
        }
    }
}

/// Replaces every constant array length in the program's written types by
/// its value. Each constant so used is first checked: it is defined once,
/// and its type and value depend, without a cycle and at most 128 deep,
/// only on sound constants and types; its value comes from `evaluated`.
/// The constants and types are looked up in a copy of the items while the
/// items themselves, taken by value, are rewritten (see `resolve_copy`).
/// Returns the rewritten program, item for item, and the uses: one for each
/// constant length replaced, with its value, name and place, in the order
/// in which the items' written types are met. A program that names no array
/// length by a constant always resolves, and so does one whose constant
/// lengths each name a constant defined once, with a built-in type and a
/// value that refers to nothing, and whose value is a valid length; where
/// those values are only integers, the one error left is a length that is
/// not positive or too large.
pub fn resolve(program: Program, evaluated: &Vec<EvaluatedConstant>) -> (r: Result<(Program, Vec<LengthUse>), Diagnostic>)
    ensures
        r matches Ok((p, uses)) ==> {
            &&& p.items@.len() == program.items@.len()
            &&& forall|i: int| 0 <= i < p.items@.len() ==> item_lengths_resolved(#[trigger] p.items@[i])
            &&& forall|i: int| 0 <= i < p.items@.len() ==> same_declaration(#[trigger] p.items@[i], program.items@[i])
            &&& forall|i: int| 0 <= i < p.items@.len() ==> resolves_item_lengths(evaluated@, program.items@[i], #[trigger] p.items@[i])
            &&& uses_agree(evaluated@, uses@)
            &&& use_views(uses@) == items_uses(evaluated@, program.items@)
        },
        (forall|i: int| 0 <= i < program.items@.len() ==> item_lengths_resolved(#[trigger] program.items@[i])) ==> r is Ok,
        (forall|i: int| 0 <= i < program.items@.len() ==> item_lengths_sound(program.items@, evaluated@, #[trigger] program.items@[i])) ==> r is Ok,
        (forall|i: int| 0 <= i < program.items@.len() ==> item_lengths_integral(program.items@, evaluated@, #[trigger] program.items@[i]))
            ==> (r matches Err(e) ==> length_value_error(e.message@)),
{
    let ghost orig = program.items@;
    let mut copies: Vec<Item> = Vec::new();
    let mut i: usize = 0;
    while i < program.items.len()
        invariant
            i <= program.items@.len(),
            orig == program.items@,
            copies@.len() == i,
            forall|j: int| 0 <= j < i ==> same_declaration(#[trigger] copies@[j], program.items@[j]),
            forall|j: int| 0 <= j < i && (#[trigger] program.items@[j]) is ConstantDefinition ==> {
                &&& copies@[j]->ConstantDefinition_0.type_ref == program.items@[j]->ConstantDefinition_0.type_ref
                &&& dependency_leaf(copies@[j]->ConstantDefinition_0.value) == dependency_leaf(
                    program.items@[j]->ConstantDefinition_0.value,
                )
            },
        decreases program.items@.len() - i,
    {
        let ghost before = copies@;
        copies.push(copy_item(&program.items[i], Ghost(program.items@), Ghost(evaluated@), Ghost(Seq::empty()), Ghost(Seq::empty())));
        proof {
            assert forall|j: int| 0 <= j < i + 1 implies same_declaration(#[trigger] copies@[j], program.items@[j]) by {
                if j < i {
                    assert(copies@[j] == before[j]);
                }
            }
            assert forall|j: int| 0 <= j < i + 1 && (#[trigger] program.items@[j]) is ConstantDefinition implies {
                &&& copies@[j]->ConstantDefinition_0.type_ref == program.items@[j]->ConstantDefinition_0.type_ref
                &&& dependency_leaf(copies@[j]->ConstantDefinition_0.value) == dependency_leaf(
                    program.items@[j]->ConstantDefinition_0.value,
                )
            } by {
                if j < i {
                    assert(copies@[j] == before[j]);
                }
            }
        }
        i = i + 1;
    }
    let source = Program { items: copies };
    proof {
        assert(constants_kept(orig, source.items@));
        assert forall|k: int| 0 <= k < orig.len() implies (item_lengths_sound(orig, evaluated@, #[trigger] orig[k])
            ==> item_lengths_sound(source.items@, evaluated@, orig[k])) && (item_lengths_integral(orig, evaluated@, orig[k])
            ==> item_lengths_integral(source.items@, evaluated@, orig[k])) by {
            lemma_item_moves(orig, source.items@, evaluated@, orig[k]);
        }
    }
    resolve_copy(&source, program.items, evaluated)
}

/// Resolves the constant array lengths in `copy`, a copy of the items of
/// `source`; the constants and types that a length depends on are looked up
/// and checked in `source`, and their values come from `evaluated`. On
/// success each item of the result is the item of `copy` at its place with
/// every written type's constant lengths replaced by their values, and
/// otherwise unchanged; every use recorded has its constant's value.
#[verifier::loop_isolation(false)]
pub fn resolve_copy(source: &Program, copy: Vec<Item>, evaluated: &Vec<EvaluatedConstant>) -> (r: Result<
    (Program, Vec<LengthUse>),
    Diagnostic,
>)
    ensures
        r matches Ok((p, uses)) ==> {
            &&& p.items@.len() == copy@.len()
            &&& forall|i: int| 0 <= i < p.items@.len() ==> item_lengths_resolved(#[trigger] p.items@[i])
            &&& forall|i: int| 0 <= i < p.items@.len() ==> same_declaration(#[trigger] p.items@[i], copy@[i])
            &&& forall|i: int| 0 <= i < p.items@.len() ==> resolves_item_lengths(evaluated@, copy@[i], #[trigger] p.items@[i])
            &&& uses_agree(evaluated@, uses@)
            &&& use_views(uses@) == items_uses(evaluated@, copy@)
        },
        (forall|i: int| 0 <= i < copy@.len() ==> item_lengths_resolved(#[trigger] copy@[i])) ==> r is Ok,
        (forall|i: int| 0 <= i < copy@.len() ==> item_lengths_sound(source.items@, evaluated@, #[trigger] copy@[i])) ==> r is Ok,
        (forall|i: int| 0 <= i < copy@.len() ==> item_lengths_integral(source.items@, evaluated@, #[trigger] copy@[i])) ==> (r matches Err(e) ==> length_value_error(e.message@)),
{
    let mut resolver = Resolver {
        evaluated,
        constants_done: Vec::new(),
        types_done: Vec::new(),
        lengths: Vec::new(),
        stack: Vec::new(),
        uses: Vec::new(),
    };
    assert(use_views(resolver.uses@) =~= Seq::empty());
    let ghost orig = copy@;
    let ghost start = resolver;
    let mut rest = copy;
    let mut out: Vec<Item> = Vec::new();
    while rest.len() > 0
        invariant
            out@.len() + rest@.len() == orig.len(),
            rest@ == orig.skip(out@.len() as int),
            resolver.wf(),
            resolver.kept(&start),
            start.stack@.len() == 0,
            resolver.evaluated == evaluated,
            forall|j: int| 0 <= j < out@.len() ==> item_lengths_resolved(#[trigger] out@[j]),
            forall|j: int| 0 <= j < out@.len() ==> same_declaration(#[trigger] out@[j], orig[j]),
            forall|j: int| 0 <= j < out@.len() ==> resolves_item_lengths(evaluated@, orig[j], #[trigger] out@[j]),
            use_views(resolver.uses@) == items_uses(evaluated@, orig.take(out@.len() as int)),
        decreases rest@.len(),
    {
        let ghost k = out@.len() as int;
        let item = rest.remove(0);
        assert(item == orig[k]);
        assert(rest@ =~= orig.skip(k + 1));
        let ghost u0 = use_views(resolver.uses@);
        let resolved = resolver.item(source, item)?;
        proof {
            assert(orig.take(k + 1).drop_last() =~= orig.take(k));
            assert(orig.take(k + 1).last() == orig[k]);
        }
        let ghost before = out@;
        out.push(resolved);
        proof {
            assert forall|j: int| 0 <= j < out@.len() implies item_lengths_resolved(#[trigger] out@[j])
                && same_declaration(out@[j], orig[j]) && resolves_item_lengths(evaluated@, orig[j], out@[j]) by {
                if j < k {
                    assert(out@[j] == before[j]);
                }
            }
        }
    }
    assert(orig.take(orig.len() as int) =~= orig);
    Ok((Program { items: out }, resolver.uses))
}

} // verus!
