//! The parts of lowering a checked program to C that decide declarations:
//! the C type of each checked type, the array types that need a C struct,
//! the order of the type definitions, and the names given to bindings and
//! stored fields.
use crate::ast;
use crate::ir;
use crate::text::{decimal, decimal_text};
use crate::types::IntegerType;
use vstd::prelude::*;

verus! {

/// A C-level type.
#[derive(Debug, PartialEq, Eq)]
pub enum Type {
    String,
    Bool,
    U64,
    I64,
    Float,
    Double,
    Named(usize),
    Array { element: Box<Type>, length: usize },
}

/// The C type that stands for a checked type: `u64` keeps its own type,
/// every other integer is held as `i64`, `f32` as `float`, `f64` as `double`.
pub open spec fn c_type(ty: ir::Type) -> Type
    decreases ty,
{
    match ty {
        ir::Type::String => Type::String,
        ir::Type::Bool => Type::Bool,
        ir::Type::Integer(IntegerType::U64) => Type::U64,
        ir::Type::Integer(_) => Type::I64,
        ir::Type::F32 => Type::Float,
        ir::Type::F64 => Type::Double,
        ir::Type::Named(id) => Type::Named(id.0),
        ir::Type::Array { element, length } => Type::Array { element: Box::new(c_type(*element)), length },
    }
}

/// Lowers a checked type to its C type.
pub fn lower_type(ty: &ir::Type) -> (r: Type)
    ensures
        r == c_type(*ty),
    decreases ty,
{
    match ty {
        ir::Type::String => Type::String,
        ir::Type::Bool => Type::Bool,
        ir::Type::Integer(IntegerType::U64) => Type::U64,
        ir::Type::Integer(_) => Type::I64,
        ir::Type::F32 => Type::Float,
        ir::Type::F64 => Type::Double,
        ir::Type::Named(id) => Type::Named(id.0),
        ir::Type::Array { element, length } => Type::Array { element: Box::new(lower_type(element)), length: *length },
    }
}

impl From<ir::Type> for Type {
    /// The C type that stands for a checked type.
    fn from(value: ir::Type) -> (r: Self) {
        lower_type(&value)
    }
}

impl vstd::std_specs::convert::FromSpecImpl<ir::Type> for Type {
    open spec fn obeys_from_spec() -> bool {
        true
    }

    open spec fn from_spec(v: ir::Type) -> Self {
        c_type(v)
    }
}

/// Whether two C types are the same.
fn same_type(a: &Type, b: &Type) -> (r: bool)
    ensures
        r == (*a == *b),
    decreases a,
{
    match (a, b) {
        (Type::String, Type::String) => true,
        (Type::Bool, Type::Bool) => true,
        (Type::U64, Type::U64) => true,
        (Type::I64, Type::I64) => true,
        (Type::Float, Type::Float) => true,
        (Type::Double, Type::Double) => true,
        (Type::Named(x), Type::Named(y)) => *x == *y,
        (Type::Array { element: e, length: n }, Type::Array { element: f, length: m }) => *n == *m && same_type(e, f),
        _ => false,
    }
}

/// `types` with `ty` appended unless it is already there.
pub open spec fn with_type(types: Seq<Type>, ty: Type) -> Seq<Type> {
    if types.contains(ty) {
        types
    } else {
        types.push(ty)
    }
}

/// Appends `ty` to `types` unless it is already there.
fn push_new(types: &mut Vec<Type>, ty: Type)
    ensures
        final(types)@ == with_type(old(types)@, ty),
{
    let mut i: usize = 0;
    while i < types.len()
        invariant
            i <= types@.len(),
            forall|j: int| 0 <= j < i ==> types@[j] != ty,
        decreases types@.len() - i,
    {
        if same_type(&types[i], &ty) {
            assert(types@.contains(ty)) by {
                assert(types@[i as int] == ty);
            }
            return;
        }
        i = i + 1;
    }
    assert(!types@.contains(ty));
    types.push(ty);
}

/// `types` after the array types inside `ty` were added, innermost first.
pub open spec fn added(types: Seq<Type>, ty: ir::Type) -> Seq<Type>
    decreases ty,
{
    match ty {
        ir::Type::Array { element, .. } => with_type(added(types, *element), c_type(ty)),
        _ => types,
    }
}

/// Adds the array types inside `ty`, innermost first, each once.
fn add_array_types(ty: &ir::Type, types: &mut Vec<Type>)
    ensures
        final(types)@ == added(old(types)@, *ty),
    decreases ty,
{
    if let ir::Type::Array { element, .. } = ty {
        add_array_types(element, types);
        push_new(types, lower_type(ty));
    }
}

/// `types` after the array types met in `expr` were added: its own type
/// first, then those of its operands from left to right.
pub open spec fn expr_types(types: Seq<Type>, expr: ir::Expr) -> Seq<Type>
    decreases expr,
{
    let types = added(types, expr.ty);
    match expr.kind {
        ir::ExprKind::Constant { value } => expr_types(types, *value),
        ir::ExprKind::ArrayLength { value } => expr_types(types, *value),
        ir::ExprKind::StringByteLength { value } => expr_types(types, *value),
        ir::ExprKind::Array(values) => exprs_types(types, values@),
        ir::ExprKind::Index { base, index } => expr_types(expr_types(types, *base), *index),
        ir::ExprKind::Logical { left, right, .. } => expr_types(expr_types(types, *left), *right),
        ir::ExprKind::Binary { left, right, .. } => expr_types(expr_types(types, *left), *right),
        ir::ExprKind::Construct { base, fields, .. } => field_values_types(
            match base {
                Some(b) => expr_types(types, *b),
                None => types,
            },
            fields@,
        ),
        ir::ExprKind::FieldAccess { base, .. } => expr_types(types, *base),
        ir::ExprKind::ConvertNumeric { value, .. } => expr_types(types, *value),
        ir::ExprKind::ConvertInteger { value } => expr_types(types, *value),
        ir::ExprKind::Unary { value, .. } => expr_types(types, *value),
        ir::ExprKind::Call { arguments, .. } => exprs_types(types, arguments@),
        _ => types,
    }
}

/// `types` after the array types met in each expression of `exprs`, in order.
pub open spec fn exprs_types(types: Seq<Type>, exprs: Seq<ir::Expr>) -> Seq<Type>
    decreases exprs,
{
    if exprs.len() == 0 {
        types
    } else {
        expr_types(exprs_types(types, exprs.drop_last()), exprs.last())
    }
}

/// `types` after the array types met in each field value, in order.
pub open spec fn field_values_types(types: Seq<Type>, fields: Seq<ir::FieldValue>) -> Seq<Type>
    decreases fields,
{
    if fields.len() == 0 {
        types
    } else {
        expr_types(field_values_types(types, fields.drop_last()), fields.last().value)
    }
}

/// Adds the array types met in `expr`.
#[verifier::loop_isolation(false)]
fn visit_expr(expr: &ir::Expr, types: &mut Vec<Type>)
    ensures
        final(types)@ == expr_types(old(types)@, *expr),
    decreases expr,
{
    add_array_types(&expr.ty, types);
    match &expr.kind {
        ir::ExprKind::Constant { value } => visit_expr(value, types),
        ir::ExprKind::ArrayLength { value } => visit_expr(value, types),
        ir::ExprKind::StringByteLength { value } => visit_expr(value, types),
        ir::ExprKind::Array(values) => visit_exprs(values, types),
        ir::ExprKind::Index { base, index } => {
            visit_expr(base, types);
            visit_expr(index, types);
        },
        ir::ExprKind::Logical { left, right, .. } => {
            visit_expr(left, types);
            visit_expr(right, types);
        },
        ir::ExprKind::Binary { left, right, .. } => {
            visit_expr(left, types);
            visit_expr(right, types);
        },
        ir::ExprKind::Construct { base, fields, .. } => {
            if let Some(b) = base {
                visit_expr(b, types);
            }
            let ghost start = types@;
            let mut i: usize = 0;
            while i < fields.len()
                invariant
                    i <= fields@.len(),
                    types@ == field_values_types(start, fields@.take(i as int)),
                decreases fields@.len() - i,
            {
                assert(fields@.take(i + 1).drop_last() =~= fields@.take(i as int));
                visit_expr(&fields[i].value, types);
                i = i + 1;
            }
            assert(fields@.take(fields@.len() as int) =~= fields@);
        },
        ir::ExprKind::FieldAccess { base, .. } => visit_expr(base, types),
        ir::ExprKind::ConvertNumeric { value, .. } => visit_expr(value, types),
        ir::ExprKind::ConvertInteger { value } => visit_expr(value, types),
        ir::ExprKind::Unary { value, .. } => visit_expr(value, types),
        ir::ExprKind::Call { arguments, .. } => visit_exprs(arguments, types),
        _ => {},
    }
}

/// Adds the array types met in each expression of `values`, in order.
fn visit_exprs(values: &Vec<ir::Expr>, types: &mut Vec<Type>)
    ensures
        final(types)@ == exprs_types(old(types)@, values@),
    decreases values,
{
    let ghost start = types@;
    let mut i: usize = 0;
    while i < values.len()
        invariant
            i <= values@.len(),
            types@ == exprs_types(start, values@.take(i as int)),
        decreases values@.len() - i,
    {
        assert(values@.take(i + 1).drop_last() =~= values@.take(i as int));
        visit_expr(&values[i], types);
        i = i + 1;
    }
    assert(values@.take(values@.len() as int) =~= values@);
}

/// `types` after the array types met in the index of each projection.
pub open spec fn projections_types(types: Seq<Type>, projections: Seq<ir::AssignmentProjection>) -> Seq<Type>
    decreases projections,
{
    if projections.len() == 0 {
        types
    } else {
        match projections.last() {
            ir::AssignmentProjection::Index { index, .. } => expr_types(
                projections_types(types, projections.drop_last()),
                index,
            ),
        }
    }
}

/// `types` after the array types met in `statement`: written types first,
/// then expressions, then nested statements, in source order.
pub open spec fn stmt_types(types: Seq<Type>, statement: ir::Statement) -> Seq<Type>
    decreases statement,
{
    match statement.kind {
        ir::StatementKind::Binding { ty, value, .. } => expr_types(added(types, ty), value),
        ir::StatementKind::Assignment { target, value } => expr_types(
            projections_types(added(types, target.root_ty), target.projections@),
            value,
        ),
        ir::StatementKind::Print { value } => expr_types(types, value),
        ir::StatementKind::Return { value } => match value {
            Some(v) => expr_types(types, v),
            None => types,
        },
        ir::StatementKind::Call { arguments, .. } => exprs_types(types, arguments@),
        ir::StatementKind::If { condition, then_body, else_body } => stmts_types(
            stmts_types(expr_types(types, condition), then_body@),
            else_body@,
        ),
        ir::StatementKind::While { condition, body } => stmts_types(expr_types(types, condition), body@),
        ir::StatementKind::For { initializer, condition, update, body } => stmts_types(
            stmt_types(expr_types(stmt_types(types, *initializer), condition), *update),
            body@,
        ),
        ir::StatementKind::Break => types,
        ir::StatementKind::Continue => types,
    }
}

/// `types` after the array types met in each statement, in order.
pub open spec fn stmts_types(types: Seq<Type>, statements: Seq<ir::Statement>) -> Seq<Type>
    decreases statements,
{
    if statements.len() == 0 {
        types
    } else {
        stmt_types(stmts_types(types, statements.drop_last()), statements.last())
    }
}

/// Adds the array types met in `statement`.
#[verifier::loop_isolation(false)]
fn visit_statement(statement: &ir::Statement, types: &mut Vec<Type>)
    ensures
        final(types)@ == stmt_types(old(types)@, *statement),
    decreases statement,
{
    match &statement.kind {
        ir::StatementKind::Binding { ty, value, .. } => {
            add_array_types(ty, types);
            visit_expr(value, types);
        },
        ir::StatementKind::Assignment { target, value } => {
            add_array_types(&target.root_ty, types);
            let ghost start = types@;
            let mut i: usize = 0;
            while i < target.projections.len()
                invariant
                    i <= target.projections@.len(),
                    types@ == projections_types(start, target.projections@.take(i as int)),
                decreases target.projections@.len() - i,
            {
                assert(target.projections@.take(i + 1).drop_last() =~= target.projections@.take(i as int));
                match &target.projections[i] {
                    ir::AssignmentProjection::Index { index, .. } => visit_expr(index, types),
                }
                i = i + 1;
            }
            assert(target.projections@.take(target.projections@.len() as int) =~= target.projections@);
            visit_expr(value, types);
        },
        ir::StatementKind::Print { value } => visit_expr(value, types),
        ir::StatementKind::Return { value: Some(value) } => visit_expr(value, types),
        ir::StatementKind::Call { arguments, .. } => visit_exprs(arguments, types),
        ir::StatementKind::If { condition, then_body, else_body } => {
            visit_expr(condition, types);
            visit_statements(then_body, types);
            visit_statements(else_body, types);
        },
        ir::StatementKind::While { condition, body } => {
            visit_expr(condition, types);
            visit_statements(body, types);
        },
        ir::StatementKind::For { initializer, condition, update, body } => {
            visit_statement(initializer, types);
            visit_expr(condition, types);
            visit_statement(update, types);
            visit_statements(body, types);
        },
        ir::StatementKind::Return { value: None } => {},
        ir::StatementKind::Break => {},
        ir::StatementKind::Continue => {},
    }
}

/// Adds the array types met in each statement of `statements`, in order.
fn visit_statements(statements: &Vec<ir::Statement>, types: &mut Vec<Type>)
    ensures
        final(types)@ == stmts_types(old(types)@, statements@),
    decreases statements,
{
    let ghost start = types@;
    let mut i: usize = 0;
    while i < statements.len()
        invariant
            i <= statements@.len(),
            types@ == stmts_types(start, statements@.take(i as int)),
        decreases statements@.len() - i,
    {
        assert(statements@.take(i + 1).drop_last() =~= statements@.take(i as int));
        visit_statement(&statements[i], types);
        i = i + 1;
    }
    assert(statements@.take(statements@.len() as int) =~= statements@);
}

/// `types` after the array types in the field types of each definition.
pub open spec fn definitions_types(types: Seq<Type>, definitions: Seq<ir::TypeDefinition>) -> Seq<Type>
    decreases definitions.len(),
{
    if definitions.len() == 0 {
        types
    } else {
        fields_types(definitions_types(types, definitions.drop_last()), definitions.last().fields@)
    }
}

/// `types` after the array types in the type of each field.
pub open spec fn fields_types(types: Seq<Type>, fields: Seq<ir::FieldDefinition>) -> Seq<Type>
    decreases fields.len(),
{
    if fields.len() == 0 {
        types
    } else {
        added(fields_types(types, fields.drop_last()), fields.last().ty)
    }
}

/// `types` after the array types met in the body of each function.
pub open spec fn functions_types(types: Seq<Type>, functions: Seq<ir::FunctionDefinition>) -> Seq<Type>
    decreases functions.len(),
{
    if functions.len() == 0 {
        types
    } else {
        stmts_types(functions_types(types, functions.drop_last()), functions.last().body@)
    }
}

/// The array types of a program that need a C definition, each once, in
/// the order first met: in field types of type definitions, then in
/// function bodies, then in top-level statements.
pub open spec fn program_array_types(program: ir::Program) -> Seq<Type> {
    stmts_types(
        functions_types(definitions_types(Seq::empty(), program.type_definitions@), program.function_definitions@),
        program.statements@,
    )
}

/// Collects the array types of a program that need a C definition.
pub fn collect_array_types(program: &ir::Program) -> (r: Vec<Type>)
    ensures
        r@ == program_array_types(*program),
{
    let mut types: Vec<Type> = Vec::new();
    let mut d: usize = 0;
    while d < program.type_definitions.len()
        invariant
            d <= program.type_definitions@.len(),
            types@ == definitions_types(Seq::empty(), program.type_definitions@.take(d as int)),
        decreases program.type_definitions@.len() - d,
    {
        assert(program.type_definitions@.take(d + 1).drop_last() =~= program.type_definitions@.take(d as int));
        let fields = &program.type_definitions[d].fields;
        let ghost before = types@;
        let mut f: usize = 0;
        while f < fields.len()
            invariant
                f <= fields@.len(),
                types@ == fields_types(before, fields@.take(f as int)),
            decreases fields@.len() - f,
        {
            assert(fields@.take(f + 1).drop_last() =~= fields@.take(f as int));
            add_array_types(&fields[f].ty, &mut types);
            f = f + 1;
        }
        assert(fields@.take(fields@.len() as int) =~= fields@);
        d = d + 1;
    }
    assert(program.type_definitions@.take(program.type_definitions@.len() as int) =~= program.type_definitions@);
    let ghost after_definitions = types@;
    let mut k: usize = 0;
    while k < program.function_definitions.len()
        invariant
            k <= program.function_definitions@.len(),
            types@ == functions_types(after_definitions, program.function_definitions@.take(k as int)),
        decreases program.function_definitions@.len() - k,
    {
        assert(program.function_definitions@.take(k + 1).drop_last() =~= program.function_definitions@.take(k as int));
        visit_statements(&program.function_definitions[k].body, &mut types);
        k = k + 1;
    }
    assert(program.function_definitions@.take(program.function_definitions@.len() as int) =~= program.function_definitions@);
    visit_statements(&program.statements, &mut types);
    types
}

/// Every entry is a C array type, and no type is listed twice.
pub open spec fn distinct_arrays(types: Seq<Type>) -> bool {
    &&& forall|i: int| 0 <= i < types.len() ==> (#[trigger] types[i]) is Array
    &&& forall|i: int, j: int| 0 <= i < j < types.len() ==> #[trigger] types[i] != #[trigger] types[j]
}

proof fn lemma_added(types: Seq<Type>, ty: ir::Type)
    requires
        distinct_arrays(types),
    ensures
        distinct_arrays(added(types, ty)),
    decreases ty,
{
    if let ir::Type::Array { element, .. } = ty {
        lemma_added(types, *element);
        let inner = added(types, *element);
        if !inner.contains(c_type(ty)) {
            let r = inner.push(c_type(ty));
            assert forall|i: int, j: int| 0 <= i < j < r.len() implies #[trigger] r[i] != #[trigger] r[j] by {
                if j == r.len() - 1 {
                    assert(r[i] == inner[i]);
                }
            }
        }
    }
}

proof fn lemma_expr_types(types: Seq<Type>, expr: ir::Expr)
    requires
        distinct_arrays(types),
    ensures
        distinct_arrays(expr_types(types, expr)),
    decreases expr,
{
    lemma_added(types, expr.ty);
    let t = added(types, expr.ty);
    match expr.kind {
        ir::ExprKind::Constant { value } => lemma_expr_types(t, *value),
        ir::ExprKind::ArrayLength { value } => lemma_expr_types(t, *value),
        ir::ExprKind::StringByteLength { value } => lemma_expr_types(t, *value),
        ir::ExprKind::Array(values) => lemma_exprs_types(t, values@),
        ir::ExprKind::Index { base, index } => {
            lemma_expr_types(t, *base);
            lemma_expr_types(expr_types(t, *base), *index);
        },
        ir::ExprKind::Logical { left, right, .. } => {
            lemma_expr_types(t, *left);
            lemma_expr_types(expr_types(t, *left), *right);
        },
        ir::ExprKind::Binary { left, right, .. } => {
            lemma_expr_types(t, *left);
            lemma_expr_types(expr_types(t, *left), *right);
        },
        ir::ExprKind::Construct { base, fields, .. } => {
            match base {
                Some(b) => {
                    lemma_expr_types(t, *b);
                    lemma_field_values_types(expr_types(t, *b), fields@);
                },
                None => lemma_field_values_types(t, fields@),
            }
        },
        ir::ExprKind::FieldAccess { base, .. } => lemma_expr_types(t, *base),
        ir::ExprKind::ConvertNumeric { value, .. } => lemma_expr_types(t, *value),
        ir::ExprKind::ConvertInteger { value } => lemma_expr_types(t, *value),
        ir::ExprKind::Unary { value, .. } => lemma_expr_types(t, *value),
        ir::ExprKind::Call { arguments, .. } => lemma_exprs_types(t, arguments@),
        _ => {},
    }
}

proof fn lemma_exprs_types(types: Seq<Type>, exprs: Seq<ir::Expr>)
    requires
        distinct_arrays(types),
    ensures
        distinct_arrays(exprs_types(types, exprs)),
    decreases exprs,
{
    if exprs.len() > 0 {
        lemma_exprs_types(types, exprs.drop_last());
        lemma_expr_types(exprs_types(types, exprs.drop_last()), exprs.last());
    }
}

proof fn lemma_field_values_types(types: Seq<Type>, fields: Seq<ir::FieldValue>)
    requires
        distinct_arrays(types),
    ensures
        distinct_arrays(field_values_types(types, fields)),
    decreases fields,
{
    if fields.len() > 0 {
        lemma_field_values_types(types, fields.drop_last());
        lemma_expr_types(field_values_types(types, fields.drop_last()), fields.last().value);
    }
}

proof fn lemma_projections_types(types: Seq<Type>, projections: Seq<ir::AssignmentProjection>)
    requires
        distinct_arrays(types),
    ensures
        distinct_arrays(projections_types(types, projections)),
    decreases projections,
{
    if projections.len() > 0 {
        lemma_projections_types(types, projections.drop_last());
        match projections.last() {
            ir::AssignmentProjection::Index { index, .. } => lemma_expr_types(
                projections_types(types, projections.drop_last()),
                index,
            ),
        }
    }
}

proof fn lemma_stmt_types(types: Seq<Type>, statement: ir::Statement)
    requires
        distinct_arrays(types),
    ensures
        distinct_arrays(stmt_types(types, statement)),
    decreases statement,
{
    match statement.kind {
        ir::StatementKind::Binding { ty, value, .. } => {
            lemma_added(types, ty);
            lemma_expr_types(added(types, ty), value);
        },
        ir::StatementKind::Assignment { target, value } => {
            lemma_added(types, target.root_ty);
            lemma_projections_types(added(types, target.root_ty), target.projections@);
            lemma_expr_types(projections_types(added(types, target.root_ty), target.projections@), value);
        },
        ir::StatementKind::Print { value } => lemma_expr_types(types, value),
        ir::StatementKind::Return { value } => match value {
            Some(v) => lemma_expr_types(types, v),
            None => {},
        },
        ir::StatementKind::Call { arguments, .. } => lemma_exprs_types(types, arguments@),
        ir::StatementKind::If { condition, then_body, else_body } => {
            lemma_expr_types(types, condition);
            lemma_stmts_types(expr_types(types, condition), then_body@);
            lemma_stmts_types(stmts_types(expr_types(types, condition), then_body@), else_body@);
        },
        ir::StatementKind::While { condition, body } => {
            lemma_expr_types(types, condition);
            lemma_stmts_types(expr_types(types, condition), body@);
        },
        ir::StatementKind::For { initializer, condition, update, body } => {
            lemma_stmt_types(types, *initializer);
            let a = stmt_types(types, *initializer);
            lemma_expr_types(a, condition);
            lemma_stmt_types(expr_types(a, condition), *update);
            lemma_stmts_types(stmt_types(expr_types(a, condition), *update), body@);
        },
        ir::StatementKind::Break => {},
        ir::StatementKind::Continue => {},
    }
}

proof fn lemma_stmts_types(types: Seq<Type>, statements: Seq<ir::Statement>)
    requires
        distinct_arrays(types),
    ensures
        distinct_arrays(stmts_types(types, statements)),
    decreases statements,
{
    if statements.len() > 0 {
        lemma_stmts_types(types, statements.drop_last());
        lemma_stmt_types(stmts_types(types, statements.drop_last()), statements.last());
    }
}

proof fn lemma_fields_types(types: Seq<Type>, fields: Seq<ir::FieldDefinition>)
    requires
        distinct_arrays(types),
    ensures
        distinct_arrays(fields_types(types, fields)),
    decreases fields.len(),
{
    if fields.len() > 0 {
        lemma_fields_types(types, fields.drop_last());
        lemma_added(fields_types(types, fields.drop_last()), fields.last().ty);
    }
}

proof fn lemma_definitions_types(types: Seq<Type>, definitions: Seq<ir::TypeDefinition>)
    requires
        distinct_arrays(types),
    ensures
        distinct_arrays(definitions_types(types, definitions)),
    decreases definitions.len(),
{
    if definitions.len() > 0 {
        lemma_definitions_types(types, definitions.drop_last());
        lemma_fields_types(definitions_types(types, definitions.drop_last()), definitions.last().fields@);
    }
}

proof fn lemma_functions_types(types: Seq<Type>, functions: Seq<ir::FunctionDefinition>)
    requires
        distinct_arrays(types),
    ensures
        distinct_arrays(functions_types(types, functions)),
    decreases functions.len(),
{
    if functions.len() > 0 {
        lemma_functions_types(types, functions.drop_last());
        lemma_stmts_types(functions_types(types, functions.drop_last()), functions.last().body@);
    }
}

/// The array types collected for a program are all array types, and none is
/// listed twice: C gets one struct definition for each.
pub proof fn array_types_are_distinct(program: ir::Program)
    ensures
        distinct_arrays(program_array_types(program)),
{
    let empty = Seq::<Type>::empty();
    lemma_definitions_types(empty, program.type_definitions@);
    let a = definitions_types(empty, program.type_definitions@);
    lemma_functions_types(a, program.function_definitions@);
    lemma_stmts_types(functions_types(a, program.function_definitions@), program.statements@);
}

/// The C array type written through by one index step of an assignment.
pub open spec fn projection_type(projection: ir::AssignmentProjection) -> Type {
    match projection {
        ir::AssignmentProjection::Index { element, length, .. } => Type::Array {
            element: Box::new(c_type(element)),
            length,
        },
    }
}

/// `types` after the array types written through by each projection.
pub open spec fn assigned_projections(types: Seq<Type>, projections: Seq<ir::AssignmentProjection>) -> Seq<Type>
    decreases projections.len(),
{
    if projections.len() == 0 {
        types
    } else {
        with_type(assigned_projections(types, projections.drop_last()), projection_type(projections.last()))
    }
}

/// `types` after the array types that assignments in `statement` index
/// into, including those of nested statements.
pub open spec fn assigned_stmt(types: Seq<Type>, statement: ir::Statement) -> Seq<Type>
    decreases statement,
{
    match statement.kind {
        ir::StatementKind::Assignment { target, .. } => assigned_projections(types, target.projections@),
        ir::StatementKind::If { then_body, else_body, .. } => assigned_stmts(assigned_stmts(types, then_body@), else_body@),
        ir::StatementKind::While { body, .. } => assigned_stmts(types, body@),
        ir::StatementKind::For { initializer, update, body, .. } => assigned_stmts(
            assigned_stmt(assigned_stmt(types, *initializer), *update),
            body@,
        ),
        _ => types,
    }
}

/// `types` after the array types that assignments in each statement index into.
pub open spec fn assigned_stmts(types: Seq<Type>, statements: Seq<ir::Statement>) -> Seq<Type>
    decreases statements,
{
    if statements.len() == 0 {
        types
    } else {
        assigned_stmt(assigned_stmts(types, statements.drop_last()), statements.last())
    }
}

/// `types` after the array types that assignments in each function's body index into.
pub open spec fn assigned_functions(types: Seq<Type>, functions: Seq<ir::FunctionDefinition>) -> Seq<Type>
    decreases functions.len(),
{
    if functions.len() == 0 {
        types
    } else {
        assigned_stmts(assigned_functions(types, functions.drop_last()), functions.last().body@)
    }
}

/// The array types that assignments index into, each once, in the order
/// first met: in function bodies, then in top-level statements.
pub open spec fn program_assigned_types(program: ir::Program) -> Seq<Type> {
    assigned_stmts(assigned_functions(Seq::empty(), program.function_definitions@), program.statements@)
}

/// Adds the array types that assignments in `statement` index into.
#[verifier::loop_isolation(false)]
fn visit_assignments(statement: &ir::Statement, types: &mut Vec<Type>)
    ensures
        final(types)@ == assigned_stmt(old(types)@, *statement),
    decreases statement,
{
    match &statement.kind {
        ir::StatementKind::Assignment { target, .. } => {
            let ghost start = types@;
            let mut i: usize = 0;
            while i < target.projections.len()
                invariant
                    i <= target.projections@.len(),
                    types@ == assigned_projections(start, target.projections@.take(i as int)),
                decreases target.projections@.len() - i,
            {
                assert(target.projections@.take(i + 1).drop_last() =~= target.projections@.take(i as int));
                match &target.projections[i] {
                    ir::AssignmentProjection::Index { element, length, .. } => {
                        push_new(types, Type::Array { element: Box::new(lower_type(element)), length: *length });
                    },
                }
                i = i + 1;
            }
            assert(target.projections@.take(target.projections@.len() as int) =~= target.projections@);
        },
        ir::StatementKind::If { then_body, else_body, .. } => {
            visit_assignments_in(then_body, types);
            visit_assignments_in(else_body, types);
        },
        ir::StatementKind::While { body, .. } => visit_assignments_in(body, types),
        ir::StatementKind::For { initializer, update, body, .. } => {
            visit_assignments(initializer, types);
            visit_assignments(update, types);
            visit_assignments_in(body, types);
        },
        _ => {},
    }
}

/// Adds the array types that assignments in each statement index into.
fn visit_assignments_in(statements: &Vec<ir::Statement>, types: &mut Vec<Type>)
    ensures
        final(types)@ == assigned_stmts(old(types)@, statements@),
    decreases statements,
{
    let ghost start = types@;
    let mut i: usize = 0;
    while i < statements.len()
        invariant
            i <= statements@.len(),
            types@ == assigned_stmts(start, statements@.take(i as int)),
        decreases statements@.len() - i,
    {
        assert(statements@.take(i + 1).drop_last() =~= statements@.take(i as int));
        visit_assignments(&statements[i], types);
        i = i + 1;
    }
    assert(statements@.take(statements@.len() as int) =~= statements@);
}

/// Collects the array types that assignments index into; C writes through
/// each with a helper of its own.
pub fn collect_array_assignment_types(program: &ir::Program) -> (r: Vec<Type>)
    ensures
        r@ == program_assigned_types(*program),
{
    let mut types: Vec<Type> = Vec::new();
    let mut k: usize = 0;
    while k < program.function_definitions.len()
        invariant
            k <= program.function_definitions@.len(),
            types@ == assigned_functions(Seq::empty(), program.function_definitions@.take(k as int)),
        decreases program.function_definitions@.len() - k,
    {
        assert(program.function_definitions@.take(k + 1).drop_last() =~= program.function_definitions@.take(k as int));
        visit_assignments_in(&program.function_definitions[k].body, &mut types);
        k = k + 1;
    }
    assert(program.function_definitions@.take(program.function_definitions@.len() as int) =~= program.function_definitions@);
    visit_assignments_in(&program.statements, &mut types);
    types
}

proof fn lemma_with_array(types: Seq<Type>, ty: Type)
    requires
        distinct_arrays(types),
        ty is Array,
    ensures
        distinct_arrays(with_type(types, ty)),
{
    if !types.contains(ty) {
        let r = types.push(ty);
        assert forall|i: int, j: int| 0 <= i < j < r.len() implies #[trigger] r[i] != #[trigger] r[j] by {
            if j == r.len() - 1 {
                assert(r[i] == types[i]);
            }
        }
    }
}

proof fn lemma_assigned_projections(types: Seq<Type>, projections: Seq<ir::AssignmentProjection>)
    requires
        distinct_arrays(types),
    ensures
        distinct_arrays(assigned_projections(types, projections)),
    decreases projections.len(),
{
    if projections.len() > 0 {
        lemma_assigned_projections(types, projections.drop_last());
        lemma_with_array(assigned_projections(types, projections.drop_last()), projection_type(projections.last()));
    }
}

proof fn lemma_assigned_stmt(types: Seq<Type>, statement: ir::Statement)
    requires
        distinct_arrays(types),
    ensures
        distinct_arrays(assigned_stmt(types, statement)),
    decreases statement,
{
    match statement.kind {
        ir::StatementKind::Assignment { target, .. } => lemma_assigned_projections(types, target.projections@),
        ir::StatementKind::If { then_body, else_body, .. } => {
            lemma_assigned_stmts(types, then_body@);
            lemma_assigned_stmts(assigned_stmts(types, then_body@), else_body@);
        },
        ir::StatementKind::While { body, .. } => lemma_assigned_stmts(types, body@),
        ir::StatementKind::For { initializer, update, body, .. } => {
            lemma_assigned_stmt(types, *initializer);
            lemma_assigned_stmt(assigned_stmt(types, *initializer), *update);
            lemma_assigned_stmts(assigned_stmt(assigned_stmt(types, *initializer), *update), body@);
        },
        _ => {},
    }
}

proof fn lemma_assigned_stmts(types: Seq<Type>, statements: Seq<ir::Statement>)
    requires
        distinct_arrays(types),
    ensures
        distinct_arrays(assigned_stmts(types, statements)),
    decreases statements,
{
    if statements.len() > 0 {
        lemma_assigned_stmts(types, statements.drop_last());
        lemma_assigned_stmt(assigned_stmts(types, statements.drop_last()), statements.last());
    }
}

proof fn lemma_assigned_functions(types: Seq<Type>, functions: Seq<ir::FunctionDefinition>)
    requires
        distinct_arrays(types),
    ensures
        distinct_arrays(assigned_functions(types, functions)),
    decreases functions.len(),
{
    if functions.len() > 0 {
        lemma_assigned_functions(types, functions.drop_last());
        lemma_assigned_stmts(assigned_functions(types, functions.drop_last()), functions.last().body@);
    }
}

/// The array types collected for assignments are array types, none twice.
pub proof fn assigned_types_are_distinct(program: ir::Program)
    ensures
        distinct_arrays(program_assigned_types(program)),
{
    lemma_assigned_functions(Seq::empty(), program.function_definitions@);
    lemma_assigned_stmts(assigned_functions(Seq::empty(), program.function_definitions@), program.statements@);
}

/// What `c` is written as in a stored field name: `_` as `_u`, `$` as `_d`.
pub open spec fn escaped_char(c: char) -> Seq<char> {
    if c == '_' {
        seq!['_', 'u']
    } else if c == '$' {
        seq!['_', 'd']
    } else {
        seq![c]
    }
}

/// `s` with every character escaped as in stored field names.
pub open spec fn escaped(s: Seq<char>) -> Seq<char>
    decreases s.len(),
{
    if s.len() == 0 {
        Seq::empty()
    } else {
        escaped(s.drop_last()) + escaped_char(s.last())
    }
}

/// The name a field is stored under in C. Internal names, which begin with
/// `$`, are escaped so that they meet no name written in the source.
pub open spec fn storage_name(name: Seq<char>) -> Seq<char> {
    if name.len() > 0 && name[0] == '$' {
        escaped(name)
    } else {
        name
    }
}

proof fn lemma_escaped_shape(s: Seq<char>)
    ensures
        escaped(s).len() >= s.len(),
        s.len() > 0 ==> escaped(s).len() > 0 && escaped(s).last() != '_',
        s.len() == 0 ==> escaped(s).len() == 0,
    decreases s.len(),
{
    if s.len() > 0 {
        lemma_escaped_shape(s.drop_last());
    }
}

proof fn lemma_escaped_injective(a: Seq<char>, b: Seq<char>)
    requires
        escaped(a) == escaped(b),
    ensures
        a == b,
    decreases a.len() + b.len(),
{
    lemma_escaped_shape(a);
    lemma_escaped_shape(b);
    if a.len() == 0 || b.len() == 0 {
        assert(a =~= b);
    } else {
        let pa = a.drop_last();
        let pb = b.drop_last();
        let ea = escaped(pa);
        let eb = escaped(pb);
        let ca = escaped_char(a.last());
        let cb = escaped_char(b.last());
        let whole = escaped(a);
        assert(whole == ea + ca);
        assert(whole == eb + cb);
        lemma_escaped_shape(pa);
        lemma_escaped_shape(pb);
        if ca.len() == cb.len() {
            assert(ea =~= whole.take(ea.len() as int));
            assert(eb =~= whole.take(eb.len() as int));
            assert(ca =~= whole.skip(ea.len() as int));
            assert(cb =~= whole.skip(eb.len() as int));
            assert(a.last() == b.last());
            lemma_escaped_injective(pa, pb);
            assert(a =~= pa.push(a.last()));
            assert(b =~= pb.push(b.last()));
        } else if ca.len() > cb.len() {
            assert(eb.len() == ea.len() + 1);
            assert(eb.last() == whole[ea.len() as int]);
            assert(whole[ea.len() as int] == ca[0]);
        } else {
            assert(ea.len() == eb.len() + 1);
            assert(ea.last() == whole[eb.len() as int]);
            assert(whole[eb.len() as int] == cb[0]);
        }
    }
}

/// Distinct internal names, those that begin with `$`, are stored under
/// distinct names.
pub proof fn lemma_storage_names_distinct(a: Seq<char>, b: Seq<char>)
    requires
        a.len() > 0 && a[0] == '$',
        b.len() > 0 && b[0] == '$',
        a != b,
    ensures
        storage_name(a) != storage_name(b),
{
    if storage_name(a) == storage_name(b) {
        lemma_escaped_injective(a, b);
    }
}

/// The name a field is stored under in C.
pub fn storage_field_name(name: &str) -> (r: String)
    ensures
        r@ == storage_name(name@),
{
    let n = name.unicode_len();
    if n == 0 || name.get_char(0) != '$' {
        return String::from_str(name);
    }
    let mut r = String::new();
    let mut i: usize = 0;
    while i < n
        invariant
            n == name@.len(),
            i <= n,
            r@ == escaped(name@.take(i as int)),
        decreases n - i,
    {
        assert(name@.take(i + 1).drop_last() =~= name@.take(i as int));
        let c = name.get_char(i);
        if c == '_' {
            proof {
                reveal_strlit("_u");
            }
            r.append("_u");
        } else if c == '$' {
            proof {
                reveal_strlit("_d");
            }
            r.append("_d");
        } else {
            let one = name.substring_char(i, i + 1);
            assert(one@ =~= seq![c]);
            r.append(one);
        }
        i = i + 1;
    }
    assert(name@.take(n as int) =~= name@);
    r
}

/// `s` with every `$` written as `_`.
pub open spec fn dollars_replaced(s: Seq<char>) -> Seq<char> {
    s.map_values(|c: char| if c == '$' { '_' } else { c })
}

/// The C name of a resolved binding: its number and its name, so that C
/// scopes and helper names cannot capture it.
pub open spec fn spec_binding_name(id: usize, name: Seq<char>) -> Seq<char> {
    "binding_"@ + decimal(id as nat) + "_"@ + dollars_replaced(name)
}

/// Two bindings with different numbers get different C names, whatever
/// their source names.
pub proof fn lemma_binding_names_distinct(id1: usize, name1: Seq<char>, id2: usize, name2: Seq<char>)
    requires
        id1 != id2,
    ensures
        spec_binding_name(id1, name1) != spec_binding_name(id2, name2),
{
    reveal_strlit("binding_");
    reveal_strlit("_");
    let d1 = decimal(id1 as nat);
    let d2 = decimal(id2 as nat);
    crate::text::lemma_decimal_denotes(id1 as nat);
    crate::text::lemma_decimal_denotes(id2 as nat);
    let s1 = spec_binding_name(id1, name1);
    let s2 = spec_binding_name(id2, name2);
    if s1 == s2 {
        let p: int = "binding_"@.len() as int;
        assert(s1 == "binding_"@ + d1 + "_"@ + dollars_replaced(name1));
        assert(s2 == "binding_"@ + d2 + "_"@ + dollars_replaced(name2));
        assert(s1[p + d1.len() as int] == '_');
        assert(s2[p + d2.len() as int] == '_');
        if d1.len() < d2.len() {
            assert(s2[p + d1.len() as int] == d2[d1.len() as int]);
            assert('0' <= d2[d1.len() as int] <= '9');
        } else if d2.len() < d1.len() {
            assert(s1[p + d2.len() as int] == d1[d2.len() as int]);
            assert('0' <= d1[d2.len() as int] <= '9');
        } else {
            assert forall|i: int| 0 <= i < d1.len() implies d1[i] == d2[i] by {
                assert(s1[p + i] == d1[i]);
                assert(s2[p + i] == d2[i]);
            }
            assert(d1 =~= d2);
        }
    }
}

/// The C name of a resolved binding.
pub fn binding_name(id: ir::BindingId, name: &str) -> (r: String)
    ensures
        r@ == spec_binding_name(id.0, name@),
{
    proof {
        reveal_strlit("binding_");
        reveal_strlit("_");
    }
    let mut r = String::from_str("binding_");
    let digits = decimal_text(id.0 as u64);
    r.append(digits.as_str());
    r.append("_");
    let ghost prefix = r@;
    let n = name.unicode_len();
    let mut i: usize = 0;
    while i < n
        invariant
            n == name@.len(),
            i <= n,
            r@ == prefix + dollars_replaced(name@.take(i as int)),
        decreases n - i,
    {
        let c = name.get_char(i);
        let ghost before = r@;
        if c == '$' {
            proof {
                reveal_strlit("_");
            }
            assert("_"@ =~= seq!['_']);
            r.append("_");
        } else {
            let one = name.substring_char(i, i + 1);
            assert(one@ =~= seq![c]);
            r.append(one);
        }
        let ghost d = if c == '$' { '_' } else { c };
        assert(r@ =~= before.push(d));
        assert(dollars_replaced(name@.take(i + 1)) =~= dollars_replaced(name@.take(i as int)).push(d));
        assert(prefix + dollars_replaced(name@.take(i + 1)) =~= (prefix + dollars_replaced(name@.take(i as int))).push(d));
        i = i + 1;
    }
    assert(name@.take(n as int) =~= name@);
    r
}

/// The type definition a field of type `ty` has to follow in C: the named
/// type itself, or the named element type of an array.
pub open spec fn spec_named_dependency(ty: ir::Type) -> Option<usize>
    decreases ty,
{
    match ty {
        ir::Type::Named(id) => Some(id.0),
        ir::Type::Array { element, .. } => spec_named_dependency(*element),
        _ => None,
    }
}

/// The type definition a field of type `ty` has to follow in C.
pub fn named_type_dependency(ty: &ir::Type) -> (r: Option<ir::TypeId>)
    ensures
        r matches Some(id) ==> spec_named_dependency(*ty) == Some(id.0),
        r is None ==> spec_named_dependency(*ty) is None,
    decreases ty,
{
    match ty {
        ir::Type::Named(id) => Some(*id),
        ir::Type::Array { element, .. } => named_type_dependency(element),
        _ => None,
    }
}

/// How `print` formats a value in C.
#[derive(Debug, Clone, Copy, PartialEq, Eq, Structural)]
pub enum PrintFormat {
    String,
    Bool,
    U64,
    I64,
    F32,
    F64,
}

/// How a value of a scalar type is printed: `u64` unsigned, every other
/// integer as `i64`.
pub open spec fn c_print_format(ty: ir::Type) -> PrintFormat {
    match ty {
        ir::Type::String => PrintFormat::String,
        ir::Type::Bool => PrintFormat::Bool,
        ir::Type::Integer(IntegerType::U64) => PrintFormat::U64,
        ir::Type::Integer(_) => PrintFormat::I64,
        ir::Type::F32 => PrintFormat::F32,
        _ => PrintFormat::F64,
    }
}

/// The values that a printing format writes out exactly: the integers of
/// the signed or unsigned 64-bit range.
pub open spec fn format_range(f: PrintFormat) -> Option<(int, int)> {
    match f {
        PrintFormat::I64 => Some((-0x8000_0000_0000_0000, 0x7fff_ffff_ffff_ffff)),
        PrintFormat::U64 => Some((0, 0xffff_ffff_ffff_ffff)),
        _ => None,
    }
}

/// The number of bits of a floating printing format.
pub open spec fn format_float_bits(f: PrintFormat) -> Option<nat> {
    match f {
        PrintFormat::F32 => Some(32),
        PrintFormat::F64 => Some(64),
        _ => None,
    }
}

/// A scalar is printed in a format that writes every value of its type:
/// an integer in a range that holds its type's range, a float at its own
/// width, strings and booleans as such.
pub proof fn lemma_print_format_fits(ty: ir::Type)
    requires
        !(ty is Named),
        !(ty is Array),
    ensures
        ty matches ir::Type::Integer(t) ==> (format_range(c_print_format(ty)) matches Some((lo, hi)) && lo
            <= crate::types::spec_minimum(t) && crate::types::spec_maximum(t) <= hi),
        ty is Integer <==> format_range(c_print_format(ty)) is Some,
        format_float_bits(c_print_format(ty)) == ir::float_bits(ty),
        ty is String <==> c_print_format(ty) is String,
        ty is Bool <==> c_print_format(ty) is Bool,
{
}

/// How a value of a scalar type is printed.
pub fn print_format(ty: &ir::Type) -> (r: PrintFormat)
    requires
        !(ty is Named),
        !(ty is Array),
    ensures
        r == c_print_format(*ty),
{
    match ty {
        ir::Type::String => PrintFormat::String,
        ir::Type::Bool => PrintFormat::Bool,
        ir::Type::Integer(IntegerType::U64) => PrintFormat::U64,
        ir::Type::Integer(_) => PrintFormat::I64,
        ir::Type::F32 => PrintFormat::F32,
        _ => PrintFormat::F64,
    }
}

/// A C unary operation.
#[derive(Debug, Clone, Copy, PartialEq, Eq, Structural)]
pub enum UnaryOp {
    CheckedI64Negate,
    Negate,
    Not,
}

/// The C operation for a unary operator other than bit complement (which
/// lowers to an exclusive or): negating an integer is checked.
pub open spec fn c_unary_op(op: ast::UnaryOp, ty: ir::Type) -> UnaryOp {
    match op {
        ast::UnaryOp::Negate => if ty is Integer {
            UnaryOp::CheckedI64Negate
        } else {
            UnaryOp::Negate
        },
        _ => UnaryOp::Not,
    }
}

/// The value of the C unary operation `op` on `a`, with `false` as 0.
pub open spec fn c_unary_value(op: UnaryOp, a: int) -> int {
    match op {
        UnaryOp::CheckedI64Negate | UnaryOp::Negate => -a,
        UnaryOp::Not => if a == 0 { 1 } else { 0 },
    }
}

/// A unary operator lowers to a C operation that computes the same
/// function of its operand, checked exactly when an integer is negated.
pub proof fn lemma_unary_op_computes_operator(op: ast::UnaryOp, ty: ir::Type, a: int)
    requires
        op != ast::UnaryOp::BitNot,
    ensures
        ast::unary_value(op, a) == Some(c_unary_value(c_unary_op(op, ty), a)),
        c_unary_op(op, ty) == UnaryOp::CheckedI64Negate <==> (op == ast::UnaryOp::Negate && ty is Integer),
{
}

/// The C operation for a unary operator other than bit complement.
pub fn lower_unary_op(op: ast::UnaryOp, ty: &ir::Type) -> (r: UnaryOp)
    requires
        op != ast::UnaryOp::BitNot,
    ensures
        r == c_unary_op(op, *ty),
{
    match (op, ty) {
        (ast::UnaryOp::Negate, ir::Type::Integer(_)) => UnaryOp::CheckedI64Negate,
        (ast::UnaryOp::Negate, _) => UnaryOp::Negate,
        _ => UnaryOp::Not,
    }
}

/// A C binary operation.
#[derive(Debug, Clone, Copy, PartialEq, Eq, Structural)]
pub enum BinaryOp {
    CheckedI64Add,
    CheckedI64Subtract,
    CheckedI64Multiply,
    CheckedI64Divide,
    Add,
    Subtract,
    Multiply,
    Divide,
    Equal,
    NotEqual,
    Less,
    LessEqual,
    Greater,
    GreaterEqual,
}

/// Whether `op` is lowered as an integer operation of its own (remainder,
/// bitwise operations and shifts).
pub open spec fn integer_only(op: ast::BinaryOp) -> bool {
    ||| op == ast::BinaryOp::Remainder
    ||| op == ast::BinaryOp::BitAnd
    ||| op == ast::BinaryOp::BitOr
    ||| op == ast::BinaryOp::BitXor
    ||| op == ast::BinaryOp::ShiftLeft
    ||| op == ast::BinaryOp::ShiftRight
}

/// The C operation for a binary operator whose operands have type
/// `operand_ty`: the four arithmetic operators on integers are checked.
pub open spec fn c_binary_op(op: ast::BinaryOp, operand_ty: ir::Type) -> BinaryOp {
    match op {
        ast::BinaryOp::Add => if operand_ty is Integer { BinaryOp::CheckedI64Add } else { BinaryOp::Add },
        ast::BinaryOp::Subtract => if operand_ty is Integer {
            BinaryOp::CheckedI64Subtract
        } else {
            BinaryOp::Subtract
        },
        ast::BinaryOp::Multiply => if operand_ty is Integer {
            BinaryOp::CheckedI64Multiply
        } else {
            BinaryOp::Multiply
        },
        ast::BinaryOp::Divide => if operand_ty is Integer {
            BinaryOp::CheckedI64Divide
        } else {
            BinaryOp::Divide
        },
        ast::BinaryOp::Equal => BinaryOp::Equal,
        ast::BinaryOp::NotEqual => BinaryOp::NotEqual,
        ast::BinaryOp::Less => BinaryOp::Less,
        ast::BinaryOp::LessEqual => BinaryOp::LessEqual,
        ast::BinaryOp::Greater => BinaryOp::Greater,
        _ => BinaryOp::GreaterEqual,
    }
}

/// The C operation for a binary operator other than the integer-only ones.
pub fn lower_binary_op(op: ast::BinaryOp, operand_ty: &ir::Type) -> (r: BinaryOp)
    requires
        !integer_only(op),
    ensures
        r == c_binary_op(op, *operand_ty),
{
    let integer = match operand_ty {
        ir::Type::Integer(_) => true,
        _ => false,
    };
    match op {
        ast::BinaryOp::Add => if integer { BinaryOp::CheckedI64Add } else { BinaryOp::Add },
        ast::BinaryOp::Subtract => if integer { BinaryOp::CheckedI64Subtract } else { BinaryOp::Subtract },
        ast::BinaryOp::Multiply => if integer { BinaryOp::CheckedI64Multiply } else { BinaryOp::Multiply },
        ast::BinaryOp::Divide => if integer { BinaryOp::CheckedI64Divide } else { BinaryOp::Divide },
        ast::BinaryOp::Equal => BinaryOp::Equal,
        ast::BinaryOp::NotEqual => BinaryOp::NotEqual,
        ast::BinaryOp::Less => BinaryOp::Less,
        ast::BinaryOp::LessEqual => BinaryOp::LessEqual,
        ast::BinaryOp::Greater => BinaryOp::Greater,
        _ => BinaryOp::GreaterEqual,
    }
}

/// The value of the C operation `op` on `a` and `b`: checked and plain
/// arithmetic compute the function they are named after, and comparisons
/// give 1 when they hold and 0 when not. Division by zero has no value.
pub open spec fn c_value(op: BinaryOp, a: int, b: int) -> Option<int> {
    match op {
        BinaryOp::CheckedI64Add | BinaryOp::Add => Some(a + b),
        BinaryOp::CheckedI64Subtract | BinaryOp::Subtract => Some(a - b),
        BinaryOp::CheckedI64Multiply | BinaryOp::Multiply => Some(a * b),
        BinaryOp::CheckedI64Divide | BinaryOp::Divide => if b == 0 { None } else { Some(a / b) },
        BinaryOp::Equal => Some(if a == b { 1 } else { 0 }),
        BinaryOp::NotEqual => Some(if a != b { 1 } else { 0 }),
        BinaryOp::Less => Some(if a < b { 1 } else { 0 }),
        BinaryOp::LessEqual => Some(if a <= b { 1 } else { 0 }),
        BinaryOp::Greater => Some(if a > b { 1 } else { 0 }),
        BinaryOp::GreaterEqual => Some(if a >= b { 1 } else { 0 }),
    }
}

/// Whether `op` is one of the overflow-checked `i64` operations.
pub open spec fn c_checked(op: BinaryOp) -> bool {
    ||| op == BinaryOp::CheckedI64Add
    ||| op == BinaryOp::CheckedI64Subtract
    ||| op == BinaryOp::CheckedI64Multiply
    ||| op == BinaryOp::CheckedI64Divide
}

/// A binary operator lowers to a C operation that computes the same
/// function of its operands; the arithmetic on integers, and only that, is
/// overflow-checked.
pub proof fn lemma_binary_op_computes_operator(op: ast::BinaryOp, operand_ty: ir::Type, a: int, b: int)
    requires
        !integer_only(op),
    ensures
        c_value(c_binary_op(op, operand_ty), a, b) == ast::binary_value(op, a, b),
        c_checked(c_binary_op(op, operand_ty)) <==> (operand_ty is Integer && !ast::is_comparison(op)),
{
}

/// The values that a C integer type holds.
pub open spec fn c_range(t: Type) -> Option<(int, int)> {
    match t {
        Type::I64 => Some((-0x8000_0000_0000_0000, 0x7fff_ffff_ffff_ffff)),
        Type::U64 => Some((0, 0xffff_ffff_ffff_ffff)),
        _ => None,
    }
}

/// The number of bits of a floating C type.
pub open spec fn c_float_bits(t: Type) -> Option<nat> {
    match t {
        Type::Float => Some(32),
        Type::Double => Some(64),
        _ => None,
    }
}

/// A checked type and its C type hold the same values: an integer type in
/// a C integer whose range holds its own, a float at its own width,
/// strings and booleans as such, a defined type by its id, and an array of
/// the same length whose elements are held in the same way.
pub proof fn lemma_c_type_holds_values(ty: ir::Type)
    ensures
        ty matches ir::Type::Integer(t) ==> (c_range(c_type(ty)) matches Some((lo, hi)) && lo <= crate::types::spec_minimum(t)
            && crate::types::spec_maximum(t) <= hi),
        ty is Integer <==> c_range(c_type(ty)) is Some,
        c_float_bits(c_type(ty)) == ir::float_bits(ty),
        ty is Bool <==> c_type(ty) is Bool,
        ty is String <==> c_type(ty) is String,
        ty matches ir::Type::Named(id) ==> c_type(ty) == Type::Named(id.0),
        ty is Named <==> c_type(ty) is Named,
        ty matches ir::Type::Array { element, length } ==> (c_type(ty) matches Type::Array { element: e, length: l }
            && l == length && *e == c_type(*element)),
        ty is Array <==> c_type(ty) is Array,
{
}

/// A field of a C struct definition.
pub struct FieldDefinition {
    pub name: String,
    pub ty: Type,
}

/// A C struct definition for the checked type definition `id`.
pub struct TypeDefinition {
    pub id: usize,
    pub name: String,
    pub fields: Vec<FieldDefinition>,
}

/// Every named type that a field's type depends on is a definition of the program.
pub open spec fn references_valid(program: ir::Program) -> bool {
    forall|x: int, k: int|
        0 <= x < program.type_definitions@.len() && 0 <= k < program.type_definitions@[x].fields@.len()
            ==> (spec_named_dependency(#[trigger] program.type_definitions@[x].fields@[k].ty) matches Some(d)
            ==> d < program.type_definitions@.len())
}

/// The definition that field `k` of type definition `x` has to follow, if any.
pub open spec fn dependency_at(program: ir::Program, x: int, k: int) -> Option<int> {
    match spec_named_dependency(program.type_definitions@[x].fields@[k].ty) {
        Some(d) => Some(d as int),
        None => None,
    }
}

/// The type definition `x` has a field whose C definition needs that of `d` first.
pub open spec fn dependency_of(program: ir::Program, x: int, d: int) -> bool {
    &&& 0 <= x < program.type_definitions@.len()
    &&& exists|k: int| 0 <= k < program.type_definitions@[x].fields@.len() && #[trigger] dependency_at(program, x, k) == Some(d)
}

/// `rank` strictly decreases along every dependency: the dependencies have no cycle.
pub open spec fn ranked(program: ir::Program, rank: spec_fn(int) -> nat) -> bool {
    forall|x: int, d: int| #[trigger] dependency_of(program, x, d) ==> rank(d) < rank(x)
}

/// `definition` is the C form of the checked type definition it names: the
/// same name, and each field under its storage name with its C type.
pub open spec fn lowered_definition(program: ir::Program, definition: TypeDefinition) -> bool {
    let source = program.type_definitions@[definition.id as int];
    &&& definition.id < program.type_definitions@.len()
    &&& definition.name@ == source.name@
    &&& definition.fields@.len() == source.fields@.len()
    &&& forall|k: int|
        0 <= k < source.fields@.len() ==> (#[trigger] definition.fields@[k]).name@ == storage_name(source.fields@[k].name@)
            && definition.fields@[k].ty == c_type(source.fields@[k].ty)
}

/// Some entry of `definitions` is that of the checked definition `x`.
pub open spec fn emitted(definitions: Seq<TypeDefinition>, x: int) -> bool {
    exists|i: int| 0 <= i < definitions.len() && (#[trigger] definitions[i]).id == x
}

/// The state of the depth-first walk over type definitions.
spec fn walk_state(
    program: ir::Program,
    visited: Seq<bool>,
    definitions: Seq<TypeDefinition>,
    stack: Seq<usize>,
    rank: spec_fn(int) -> nat,
    acyclic: bool,
) -> bool {
    let n = program.type_definitions@.len();
    &&& visited.len() == n
    &&& forall|i: int| 0 <= i < definitions.len() ==> lowered_definition(program, #[trigger] definitions[i])
    &&& forall|i: int| 0 <= i < definitions.len() ==> visited[(#[trigger] definitions[i]).id as int]
    &&& forall|i: int, j: int| 0 <= i < j < definitions.len() ==> (#[trigger] definitions[i]).id != (#[trigger] definitions[j]).id
    &&& forall|x: int| 0 <= x < n && #[trigger] visited[x] ==> emitted(definitions, x) || stack.contains(x as usize)
    &&& forall|s: int| 0 <= s < stack.len() ==> (#[trigger] stack[s]) < n && visited[stack[s] as int] && !emitted(definitions, stack[s] as int)
    &&& stack.no_duplicates()
    &&& acyclic ==> forall|i: int, j: int|
        0 <= i < definitions.len() && 0 <= j < definitions.len() && dependency_of(
            program,
            (#[trigger] definitions[j]).id as int,
            (#[trigger] definitions[i]).id as int,
        ) ==> i < j
    &&& acyclic ==> forall|j: int, d: int|
        0 <= j < definitions.len() && #[trigger] dependency_of(program, definitions[j].id as int, d) ==> emitted(definitions, d)
}

/// Lowers the checked type definition `id` to C.
fn lower_definition(program: &ir::Program, id: usize) -> (r: TypeDefinition)
    requires
        id < program.type_definitions@.len(),
    ensures
        r.id == id,
        lowered_definition(*program, r),
{
    let definition = &program.type_definitions[id];
    let mut fields: Vec<FieldDefinition> = Vec::new();
    let mut k: usize = 0;
    while k < definition.fields.len()
        invariant
            k <= definition.fields@.len(),
            fields@.len() == k,
            forall|j: int| 0 <= j < k ==> (#[trigger] fields@[j]).name@ == storage_name(definition.fields@[j].name@)
                && fields@[j].ty == c_type(definition.fields@[j].ty),
        decreases definition.fields@.len() - k,
    {
        let field = &definition.fields[k];
        fields.push(FieldDefinition { name: storage_field_name(field.name.as_str()), ty: lower_type(&field.ty) });
        k = k + 1;
    }
    TypeDefinition { id, name: definition.name.clone(), fields }
}

/// Emits the definition `id` after those its fields depend on, unless it
/// was reached before.
#[verifier::loop_isolation(false)]
fn visit_definition(
    id: usize,
    program: &ir::Program,
    visited: &mut Vec<bool>,
    definitions: &mut Vec<TypeDefinition>,
    Ghost(stack): Ghost<Seq<usize>>,
    Ghost(rank): Ghost<spec_fn(int) -> nat>,
    Ghost(acyclic): Ghost<bool>,
)
    requires
        references_valid(*program),
        id < program.type_definitions@.len(),
        walk_state(*program, old(visited)@, old(definitions)@, stack, rank, acyclic),
        acyclic ==> ranked(*program, rank),
        acyclic ==> forall|s: int| 0 <= s < stack.len() ==> rank(id as int) < rank(#[trigger] stack[s] as int),
    ensures
        walk_state(*program, final(visited)@, final(definitions)@, stack, rank, acyclic),
        final(visited)@[id as int],
        acyclic ==> emitted(final(definitions)@, id as int),
        forall|x: int| 0 <= x < old(visited)@.len() && old(visited)@[x] ==> #[trigger] final(visited)@[x],
        old(definitions)@.len() <= final(definitions)@.len(),
        forall|i: int| 0 <= i < old(definitions)@.len() ==> #[trigger] final(definitions)@[i] == old(definitions)@[i],
    decreases program.type_definitions@.len() - stack.len(),
{
    if visited[id] {
        return;
    }
    let ghost old_visited = visited@;
    let ghost old_definitions = definitions@;
    visited.set(id, true);
    let ghost inner = stack.push(id);
    proof {
        assert(!stack.contains(id));
        assert(inner.no_duplicates()) by {
            assert forall|i: int, j: int| 0 <= i < inner.len() && 0 <= j < inner.len() && i != j implies inner[i] != inner[j] by {
                if j == inner.len() - 1 {
                    assert(inner[i] == stack[i]);
                } else if i == inner.len() - 1 {
                    assert(inner[j] == stack[j]);
                }
            }
        }
        lemma_stack_bound(inner, program.type_definitions@.len());
        assert forall|x: int| 0 <= x < visited@.len() && #[trigger] visited@[x] implies emitted(definitions@, x)
            || inner.contains(x as usize) by {
            if x == id {
                assert(inner[inner.len() - 1] == id);
            } else {
                assert(old_visited[x]);
                if stack.contains(x as usize) {
                    let s = choose|s: int| 0 <= s < stack.len() && stack[s] == x as usize;
                    assert(inner[s] == stack[s]);
                }
            }
        }
        assert forall|s: int| 0 <= s < inner.len() implies (#[trigger] inner[s]) < visited@.len() && visited@[inner[s] as int]
            && !emitted(definitions@, inner[s] as int) by {
            if s < stack.len() {
                assert(inner[s] == stack[s]);
            }
        }
    }
    let fields = &program.type_definitions[id].fields;
    let mut k: usize = 0;
    while k < fields.len()
        invariant
            k <= fields@.len(),
            walk_state(*program, visited@, definitions@, inner, rank, acyclic),
            visited@[id as int],
            !emitted(definitions@, id as int),
            forall|x: int| 0 <= x < old_visited.len() && old_visited[x] ==> #[trigger] visited@[x],
            old_definitions.len() <= definitions@.len(),
            forall|i: int| 0 <= i < old_definitions.len() ==> #[trigger] definitions@[i] == old_definitions[i],
            acyclic ==> forall|j: int|
                0 <= j < k ==> (spec_named_dependency(#[trigger] fields@[j].ty) matches Some(d) ==> emitted(
                    definitions@,
                    d as int,
                )),
        decreases fields@.len() - k,
    {
        if let Some(dependency) = named_type_dependency(&fields[k].ty) {
            proof {
                assert(spec_named_dependency(program.type_definitions@[id as int].fields@[k as int].ty) == Some(dependency.0));
                assert(dependency_at(*program, id as int, k as int) == Some(dependency.0 as int));
                assert(dependency_of(*program, id as int, dependency.0 as int));
                if acyclic {
                    assert forall|s: int| 0 <= s < inner.len() implies rank(dependency.0 as int) < rank(#[trigger] inner[s] as int) by {
                        if s < stack.len() {
                            assert(inner[s] == stack[s]);
                        }
                    }
                }
            }
            let ghost before = definitions@;
            visit_definition(dependency.0, program, visited, definitions, Ghost(inner), Ghost(rank), Ghost(acyclic));
            proof {
                assert(!emitted(definitions@, id as int)) by {
                    assert(inner[inner.len() - 1] == id);
                }
                if acyclic {
                    assert forall|j: int| 0 <= j < k + 1 implies (spec_named_dependency(#[trigger] fields@[j].ty) matches Some(
                        d,
                    ) ==> emitted(definitions@, d as int)) by {
                        if j < k {
                            if let Some(d) = spec_named_dependency(fields@[j].ty) {
                                let i = choose|i: int| 0 <= i < before.len() && (#[trigger] before[i]).id == d as int;
                                assert(definitions@[i] == before[i]);
                            }
                        }
                    }
                }
            }
        } else {
            proof {
                if acyclic {
                    assert forall|j: int| 0 <= j < k + 1 implies (spec_named_dependency(#[trigger] fields@[j].ty) matches Some(
                        d,
                    ) ==> emitted(definitions@, d as int)) by {
                        if j == k {
                            assert(spec_named_dependency(fields@[j].ty) is None);
                        }
                    }
                }
            }
        }
        k = k + 1;
    }
    let lowered = lower_definition(program, id);
    let ghost before = definitions@;
    definitions.push(lowered);
    proof {
        let n = program.type_definitions@.len();
        let r = definitions@;
        assert(r[before.len() as int] == lowered);
        assert(emitted(r, id as int));
        assert forall|i: int| 0 <= i < r.len() implies lowered_definition(*program, #[trigger] r[i]) && visited@[r[i].id as int] by {
            if i < before.len() {
                assert(r[i] == before[i]);
            }
        }
        assert forall|i: int, j: int| 0 <= i < j < r.len() implies (#[trigger] r[i]).id != (#[trigger] r[j]).id by {
            assert(r[i] == before[i]);
            if j < before.len() {
                assert(r[j] == before[j]);
            } else {
                if before[i].id == id {
                    assert(emitted(before, id as int));
                }
            }
        }
        assert forall|x: int| 0 <= x < n && #[trigger] visited@[x] implies emitted(r, x) || stack.contains(x as usize) by {
            if emitted(before, x) {
                let i = choose|i: int| 0 <= i < before.len() && (#[trigger] before[i]).id == x;
                assert(r[i] == before[i]);
            } else if x != id {
                assert(inner.contains(x as usize));
                let s = choose|s: int| 0 <= s < inner.len() && inner[s] == x as usize;
                assert(n <= usize::MAX) by {
                    assert(n == program.type_definitions.len());
                }
                assert(x as usize as int == x);
                if s == inner.len() - 1 {
                    assert(inner[s] == id);
                }
                assert(s < stack.len());
                assert(inner[s] == stack[s]);
            }
        }
        assert forall|s: int| 0 <= s < stack.len() implies (#[trigger] stack[s]) < n && visited@[stack[s] as int]
            && !emitted(r, stack[s] as int) by {
            assert(inner[s] == stack[s]);
            assert(stack[s] != id) by {
                assert(inner[inner.len() - 1] == id);
            }
            if emitted(r, stack[s] as int) {
                let i = choose|i: int| 0 <= i < r.len() && (#[trigger] r[i]).id == stack[s] as int;
                if i < before.len() {
                    assert(r[i] == before[i]);
                }
            }
        }
        if acyclic {
            assert forall|d: int| dependency_of(*program, id as int, d) implies emitted(before, d) by {
                let kk = choose|kk: int| 0 <= kk < program.type_definitions@[id as int].fields@.len()
                    && #[trigger] dependency_at(*program, id as int, kk) == Some(d);
                assert(fields@[kk] == program.type_definitions@[id as int].fields@[kk]);
                assert(spec_named_dependency(fields@[kk].ty) matches Some(e) ==> emitted(before, e as int));
            }
            assert forall|i: int, j: int|
                0 <= i < r.len() && 0 <= j < r.len() && dependency_of(
                    *program,
                    (#[trigger] r[j]).id as int,
                    (#[trigger] r[i]).id as int,
                ) implies i < j by {
                if j < before.len() {
                    assert(r[j] == before[j]);
                    if i < before.len() {
                        assert(r[i] == before[i]);
                    } else {
                        let d = r[i].id as int;
                        assert(d == id);
                        assert(emitted(before, d));
                    }
                } else {
                    assert(r[j].id == id);
                    let d = r[i].id as int;
                    assert(emitted(before, d));
                    if i == j {
                        assert(emitted(before, id as int));
                    }
                }
            }
            assert forall|j: int, d: int|
                0 <= j < r.len() && #[trigger] dependency_of(*program, r[j].id as int, d) implies emitted(r, d) by {
                if j < before.len() {
                    assert(r[j] == before[j]);
                } else {
                    assert(r[j].id == id);
                }
                let i = choose|i: int| 0 <= i < before.len() && (#[trigger] before[i]).id == d;
                assert(r[i] == before[i]);
            }
        }
        assert forall|i: int| 0 <= i < old_definitions.len() implies #[trigger] r[i] == old_definitions[i] by {
            assert(r[i] == before[i]);
        }
    }
}

/// Lowers the program's type definitions to C struct definitions, each
/// after the definitions its fields need complete: a walk over the
/// definitions in order that first emits, depth first, what each field's
/// named type depends on.
pub fn lower_type_definitions(program: &ir::Program) -> (r: Vec<TypeDefinition>)
    requires
        references_valid(*program),
    ensures
        forall|i: int| 0 <= i < r@.len() ==> lowered_definition(*program, #[trigger] r@[i]),
        forall|i: int, j: int| 0 <= i < j < r@.len() ==> (#[trigger] r@[i]).id != (#[trigger] r@[j]).id,
        forall|x: int| 0 <= x < program.type_definitions@.len() ==> #[trigger] emitted(r@, x),
        (exists|rank: spec_fn(int) -> nat| ranked(*program, rank)) ==> forall|i: int, j: int|
            0 <= i < r@.len() && 0 <= j < r@.len() && dependency_of(
                *program,
                (#[trigger] r@[j]).id as int,
                (#[trigger] r@[i]).id as int,
            ) ==> i < j,
{
    let n = program.type_definitions.len();
    let mut visited: Vec<bool> = Vec::new();
    while visited.len() < n
        invariant
            visited@.len() <= n,
            forall|x: int| 0 <= x < visited@.len() ==> !(#[trigger] visited@[x]),
        decreases n - visited@.len(),
    {
        visited.push(false);
    }
    let ghost acyclic = exists|rank: spec_fn(int) -> nat| ranked(*program, rank);
    let ghost rank = choose|rank: spec_fn(int) -> nat| ranked(*program, rank);
    let mut definitions: Vec<TypeDefinition> = Vec::new();
    let mut id: usize = 0;
    while id < n
        invariant
            n == program.type_definitions@.len(),
            references_valid(*program),
            id <= n,
            walk_state(*program, visited@, definitions@, Seq::empty(), rank, acyclic),
            forall|x: int| 0 <= x < id ==> #[trigger] visited@[x],
            acyclic ==> ranked(*program, rank),
        decreases n - id,
    {
        visit_definition(id, program, &mut visited, &mut definitions, Ghost(Seq::empty()), Ghost(rank), Ghost(acyclic));
        id = id + 1;
    }
    proof {
        assert forall|x: int| 0 <= x < n implies #[trigger] emitted(definitions@, x) by {
            assert(visited@[x]);
            assert(!Seq::<usize>::empty().contains(x as usize));
        }
    }
    definitions
}

/// A list of distinct numbers below `n` has at most `n` entries.
proof fn lemma_stack_bound(stack: Seq<usize>, n: nat)
    requires
        stack.no_duplicates(),
        forall|s: int| 0 <= s < stack.len() ==> (#[trigger] stack[s]) < n,
    ensures
        stack.len() <= n,
{
    let wide = stack.map_values(|x: usize| x as int);
    assert forall|i: int, j: int| 0 <= i < wide.len() && 0 <= j < wide.len() && i != j implies wide[i] != wide[j] by {
        assert(stack[i] != stack[j]);
    }
    assert(wide.no_duplicates());
    wide.unique_seq_to_set();
    vstd::set_lib::lemma_int_range(0, n as int);
    assert(wide.to_set().subset_of(vstd::set_lib::set_int_range(0, n as int))) by {
        assert forall|v: int| wide.to_set().contains(v) implies vstd::set_lib::set_int_range(0, n as int).contains(v) by {
            let i = choose|i: int| 0 <= i < wide.len() && wide[i] == v;
            assert(stack[i] < n);
        }
    }
    vstd::set_lib::lemma_len_subset(wide.to_set(), vstd::set_lib::set_int_range(0, n as int));
}

} // verus!
