//! Array iteration `for (i, v in array) { .. }` becomes one copy of the
//! array and the existing counted `for` loop over its indices.
use vstd::prelude::*;
use crate::ast::{AssignmentTarget, BinaryOp, Expr, ExprKind, IntegerLiteral, IterationBinding, Stmt, StmtKind, TypeSpec};
use crate::source::Span;
use crate::text::{decimal, decimal_text, joined};

verus! {

/// The suffix that makes the generated names of one header unique: the
/// header's file and start byte. The names start with `$`, which source
/// text cannot write.
pub open spec fn header_suffix(span: Span) -> Seq<char> {
    decimal(span.source.index as nat) + "_"@ + decimal(span.start as nat)
}

pub open spec fn snapshot_name(span: Span) -> Seq<char> {
    "$for_in_snapshot_"@ + header_suffix(span)
}

pub open spec fn cursor_name(span: Span) -> Seq<char> {
    "$for_in_cursor_"@ + header_suffix(span)
}

pub open spec fn length_name(span: Span) -> Seq<char> {
    "$for_in_length_"@ + header_suffix(span)
}

/// Headers at different places get different generated names.
pub proof fn lemma_header_names_distinct(a: Span, b: Span)
    ensures
        header_suffix(a) == header_suffix(b) ==> a.source.index == b.source.index && a.start == b.start,
        snapshot_name(a) == snapshot_name(b) ==> header_suffix(a) == header_suffix(b),
        cursor_name(a) == cursor_name(b) ==> header_suffix(a) == header_suffix(b),
        length_name(a) == length_name(b) ==> header_suffix(a) == header_suffix(b),
{
    if header_suffix(a) == header_suffix(b) {
        assert(Seq::<char>::empty() + decimal(a.source.index as nat) + "_"@ + decimal(a.start as nat) =~= header_suffix(a));
        assert(Seq::<char>::empty() + decimal(b.source.index as nat) + "_"@ + decimal(b.start as nat) =~= header_suffix(b));
        crate::text::lemma_numbered_names_distinct(
            Seq::empty(),
            a.source.index as nat,
            decimal(a.start as nat),
            b.source.index as nat,
            decimal(b.start as nat),
        );
        crate::text::lemma_decimal_denotes(a.start as nat);
        crate::text::lemma_decimal_denotes(b.start as nat);
    }
    if snapshot_name(a) == snapshot_name(b) {
        assert(header_suffix(a) =~= snapshot_name(a).skip("$for_in_snapshot_"@.len() as int));
        assert(header_suffix(b) =~= snapshot_name(b).skip("$for_in_snapshot_"@.len() as int));
    }
    if cursor_name(a) == cursor_name(b) {
        assert(header_suffix(a) =~= cursor_name(a).skip("$for_in_cursor_"@.len() as int));
        assert(header_suffix(b) =~= cursor_name(b).skip("$for_in_cursor_"@.len() as int));
    }
    if length_name(a) == length_name(b) {
        assert(header_suffix(a) =~= length_name(a).skip("$for_in_length_"@.len() as int));
        assert(header_suffix(b) =~= length_name(b).skip("$for_in_length_"@.len() as int));
    }
}

/// `e` reads the variable `name`, at `span`.
pub open spec fn reads_variable(e: Expr, name: Seq<char>, span: Span) -> bool {
    &&& e.kind matches ExprKind::Variable(n)
    &&& n@ == name
    &&& e.span == span
}

/// `e` is the untyped decimal literal of `value`, at `span`.
pub open spec fn is_literal(e: Expr, value: nat, span: Span) -> bool {
    &&& e.kind matches ExprKind::Integer(lit)
    &&& lit.spec_digits() == decimal(value)
    &&& lit.spec_explicit_type() is None
    &&& e.span == span
}

/// `s` binds the header binding `h` to `value`, at the binding's span.
pub open spec fn binds_header(s: Stmt, h: IterationBinding, value: spec_fn(Expr) -> bool) -> bool {
    &&& s.kind matches StmtKind::Binding { mutable, name, type_spec, value: v }
    &&& mutable == h.mutable
    &&& name@ == h.name@
    &&& type_spec == h.type_spec
    &&& value(v)
    &&& s.span == h.span
}

/// `s` is an immutable, inferred binding of `name` at `span`.
pub open spec fn binds_inferred(s: Stmt, mutable: bool, name: Seq<char>, span: Span) -> bool {
    &&& s.kind matches StmtKind::Binding { mutable: m, name: n, type_spec, .. }
    &&& m == mutable
    &&& n@ == name
    &&& type_spec is Infer
    &&& s.span == span
}

/// What the loop body of the expansion starts with: the index binding, if
/// any, reading the cursor, then the element binding reading the snapshot
/// at the cursor.
pub open spec fn header_bindings_ok(
    prelude: Seq<Stmt>,
    index: Option<IterationBinding>,
    element: IterationBinding,
    header: Span,
) -> bool {
    let el = prelude.last();
    &&& prelude.len() == if index is Some { 2int } else { 1int }
    &&& (index matches Some(ix) ==> binds_header(
        prelude[0],
        ix,
        |v: Expr| reads_variable(v, cursor_name(header), ix.span),
    ))
    &&& binds_header(
        el,
        element,
        |v: Expr|
            {
                &&& v.kind matches ExprKind::Index { base, index: at }
                &&& reads_variable(*base, snapshot_name(header), element.span)
                &&& reads_variable(*at, cursor_name(header), element.span)
                &&& v.span == element.span
            },
    )
}

fn variable(name: &str, span: Span) -> (r: Expr)
    ensures
        reads_variable(r, name@, span),
{
    Expr { kind: ExprKind::Variable(String::from_str(name)), span }
}

fn integer(value: usize, span: Span) -> (r: Expr)
    ensures
        is_literal(r, value as nat, span),
{
    Expr { kind: ExprKind::Integer(IntegerLiteral::decimal(decimal_text(value as u64))), span }
}

fn binding(header: IterationBinding, value: Expr) -> (r: Stmt)
    ensures
        r.kind == (StmtKind::Binding {
            mutable: header.mutable,
            name: header.name,
            type_spec: header.type_spec,
            value,
        }),
        r.span == header.span,
{
    Stmt {
        kind: StmtKind::Binding {
            mutable: header.mutable,
            name: header.name,
            type_spec: header.type_spec,
            value,
        },
        span: header.span,
    }
}

/// Expands one array iteration into: a binding of a snapshot of the array,
/// a binding of its length through `array_len`, and a counted `for` whose
/// cursor runs from 0 while below the length, and whose body first binds
/// the header's names and then runs the loop's own body.
pub fn expand(statement: Stmt) -> (r: Vec<Stmt>)
    requires
        statement.kind is ForEach,
    ensures
        ({
            let header = statement.kind->header_span;
            let value = statement.kind->ForEach_value;
            let body = statement.kind->ForEach_body;
            let index = statement.kind->index;
            let element = statement.kind->element;
            &&& r@.len() == 3
            // the operand is evaluated once, into the snapshot
            &&& binds_inferred(r@[0], false, snapshot_name(header), value.span)
            &&& r@[0].kind->Binding_value == value
            // its length, read once
            &&& binds_inferred(r@[1], false, length_name(header), header)
            &&& r@[1].kind->Binding_value.kind matches ExprKind::Call { name, name_span, arguments }
            &&& name@ == "array_len"@ && name_span == header
            &&& arguments@.len() == 1
            &&& reads_variable(arguments@[0], snapshot_name(header), header)
            &&& r@[1].kind->Binding_value.span == header
            // the counted loop
            &&& r@[2].span == statement.span
            &&& r@[2].kind matches StmtKind::For { initializer, condition, update, body: loop_body }
            &&& binds_inferred(*initializer, true, cursor_name(header), header)
            &&& is_literal(initializer.kind->Binding_value, 0, header)
            &&& condition.kind matches ExprKind::Binary { op: BinaryOp::Less, left, right }
            &&& reads_variable(*left, cursor_name(header), header)
            &&& reads_variable(*right, length_name(header), header)
            &&& condition.span == header
            &&& update.kind matches StmtKind::Assignment { target, value: step }
            &&& target.name@ == cursor_name(header) && target.projections@.len() == 0
            &&& target.name_span == header && target.span == header && update.span == header
            &&& step.kind matches ExprKind::Binary { op: BinaryOp::Add, left: l, right: one }
            &&& reads_variable(*l, cursor_name(header), header)
            &&& is_literal(*one, 1, header)
            &&& step.span == header
            &&& loop_body@.len() == body@.len() + if index is Some { 2int } else { 1int }
            &&& header_bindings_ok(
                loop_body@.take(loop_body@.len() - body@.len()),
                index,
                element,
                header,
            )
            &&& loop_body@.skip(loop_body@.len() - body@.len()) == body@
        }),
{
    let statement_span = statement.span;
    match statement.kind {
        StmtKind::ForEach { index, element, value, body, header_span } => {
            let span = header_span;
            let mut suffix = decimal_text(span.source.index as u64);
            suffix.append("_");
            suffix.append(decimal_text(span.start as u64).as_str());
            let snapshot = joined("$for_in_snapshot_", suffix.as_str());
            let cursor = joined("$for_in_cursor_", suffix.as_str());
            let count = joined("$for_in_length_", suffix.as_str());
            let value_span = value.span;
            let capture = Stmt {
                kind: StmtKind::Binding {
                    mutable: false,
                    name: snapshot.clone(),
                    type_spec: TypeSpec::Infer,
                    value,
                },
                span: value_span,
            };
            let initializer = Stmt {
                kind: StmtKind::Binding {
                    mutable: true,
                    name: cursor.clone(),
                    type_spec: TypeSpec::Infer,
                    value: integer(0, span),
                },
                span,
            };
            let mut length_arguments = Vec::new();
            length_arguments.push(variable(snapshot.as_str(), span));
            let length = Expr {
                kind: ExprKind::Call {
                    name: String::from_str("array_len"),
                    name_span: span,
                    arguments: length_arguments,
                },
                span,
            };
            let condition = Expr {
                kind: ExprKind::Binary {
                    op: BinaryOp::Less,
                    left: Box::new(variable(cursor.as_str(), span)),
                    right: Box::new(variable(count.as_str(), span)),
                },
                span,
            };
            let update = Stmt {
                kind: StmtKind::Assignment {
                    target: AssignmentTarget {
                        name: cursor.clone(),
                        name_span: span,
                        projections: Vec::new(),
                        span,
                    },
                    value: Expr {
                        kind: ExprKind::Binary {
                            op: BinaryOp::Add,
                            left: Box::new(variable(cursor.as_str(), span)),
                            right: Box::new(integer(1, span)),
                        },
                        span,
                    },
                },
                span,
            };
            let mut iteration_body: Vec<Stmt> = Vec::new();
            match index {
                Some(index) => {
                    let index_span = index.span;
                    iteration_body.push(binding(index, variable(cursor.as_str(), index_span)));
                },
                None => {},
            }
            let element_span = element.span;
            let element_value = Expr {
                kind: ExprKind::Index {
                    base: Box::new(variable(snapshot.as_str(), element_span)),
                    index: Box::new(variable(cursor.as_str(), element_span)),
                },
                span: element_span,
            };
            iteration_body.push(binding(element, element_value));
            let ghost prelude = iteration_body@;
            let mut body = body;
            iteration_body.append(&mut body);
            assert(iteration_body@.take(prelude.len() as int) =~= prelude);
            let length_binding = Stmt {
                kind: StmtKind::Binding {
                    mutable: false,
                    name: count,
                    type_spec: TypeSpec::Infer,
                    value: length,
                },
                span,
            };
            let mut r = Vec::new();
            r.push(capture);
            r.push(length_binding);
            r.push(Stmt {
                kind: StmtKind::For {
                    initializer: Box::new(initializer),
                    condition,
                    update: Box::new(update),
                    body: iteration_body,
                },
                span: statement_span,
            });
            r
        },
        _ => vstd::pervasive::unreached(),
    }
}

} // verus!
