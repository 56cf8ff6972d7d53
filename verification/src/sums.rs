//! Enum (sum type) lowering: every enum becomes a product with an `i64`
//! tag and one storage field per payload field of every variant; variant
//! constructors fill the inactive storage with zero values, and `match`
//! becomes a chain of tag comparisons over one evaluation of the subject.
use vstd::prelude::*;
use crate::ast::{
    builtin_named,
    AssignmentProjection, AssignmentTarget, BinaryOp, Expr, ExprKind,
    FieldDefinition, FieldValue, IntegerLiteral, Item, MatchArm, PatternField, Program, Stmt, StmtKind,
    Type, TypeDefinition, TypeRef, TypeRefKind, TypeSpec, VariantDefinition,
};
use crate::types::IntegerType;
use crate::copy::copy_type_ref;
use crate::diagnostic::Diagnostic;
use crate::source::Span;
use crate::text::{contains_text, decimal, decimal_text, joined, same_text, split_last_path, last_separator};

verus! {

/// The storage field that holds payload field `field` of variant `variant`.
/// The `$` keeps it apart from every name source text can write.
pub open spec fn payload_name(variant: Seq<char>, field: Seq<char>) -> Seq<char> {
    "$"@ + variant + "$"@ + field
}

/// The name of the tag field of a lowered enum.
pub open spec fn tag_name() -> Seq<char> {
    "$tag"@
}

/// Payload fields of variants named without `$` are stored under names
/// that tell variant and field apart, and that are never the tag's name.
pub proof fn lemma_payload_names_distinct(v1: Seq<char>, f1: Seq<char>, v2: Seq<char>, f2: Seq<char>)
    requires
        !v1.contains('$'),
        !v2.contains('$'),
    ensures
        payload_name(v1, f1) == payload_name(v2, f2) ==> v1 == v2 && f1 == f2,
        payload_name(v1, f1) != tag_name(),
{
    reveal_strlit("$");
    reveal_strlit("$tag");
    let s1 = payload_name(v1, f1);
    let s2 = payload_name(v2, f2);
    assert(s1[1 + v1.len() as int] == '$');
    assert(s2[1 + v2.len() as int] == '$');
    if s1 == s2 {
        if v1.len() < v2.len() {
            assert(s2[1 + v1.len() as int] == v2[v1.len() as int]);
            assert(v2.contains(v2[v1.len() as int]));
        } else if v2.len() < v1.len() {
            assert(s1[1 + v2.len() as int] == v1[v2.len() as int]);
            assert(v1.contains(v1[v2.len() as int]));
        } else {
            assert forall|i: int| 0 <= i < v1.len() implies v1[i] == v2[i] by {
                assert(s1[1 + i] == v1[i]);
                assert(s2[1 + i] == v2[i]);
            }
            assert(v1 =~= v2);
            assert(s1.len() == 2 + v1.len() + f1.len());
            assert(s2.len() == 2 + v2.len() + f2.len());
            assert(f1.len() == f2.len());
            assert forall|i: int| 0 <= i < f1.len() implies f1[i] == f2[i] by {
                assert(s1[2 + v1.len() + i] == f1[i]);
                assert(s2[2 + v2.len() + i] == f2[i]);
            }
            assert(f1 =~= f2);
        }
    }
    assert("$tag"@ =~= seq!['$', 't', 'a', 'g']);
    if s1 == tag_name() {
        assert(s1[1 + v1.len() as int] == tag_name()[1 + v1.len() as int]);
    }
}

fn payload(variant: &str, field: &str) -> (r: String)
    ensures
        r@ == payload_name(variant@, field@),
{
    let mut r = joined("$", variant);
    r.append("$");
    r.append(field);
    r
}

fn named(name: &str, span: Span) -> (r: TypeRef)
    ensures
        r.kind matches TypeRefKind::Named(n) && n@ == name@,
        r.span == span,
{
    TypeRef { kind: TypeRefKind::Named(String::from_str(name)), span }
}

fn integer(value: usize, span: Span) -> (r: Expr)
    ensures
        r.kind matches ExprKind::Integer(lit) && lit.spec_digits() == decimal(value as nat)
            && lit.spec_explicit_type() is None,
        r.span == span,
{
    Expr { kind: ExprKind::Integer(IntegerLiteral::decimal(decimal_text(value as u64))), span }
}

fn access(name: &str, field: &str, span: Span) -> (r: Expr)
    ensures
        r.kind matches ExprKind::FieldAccess { base, field_name, field_name_span } && (field_name@
            == field@ && field_name_span == span && base.span == span
            && (base.kind matches ExprKind::Variable(v) && v@ == name@)),
        r.span == span,
{
    Expr {
        kind: ExprKind::FieldAccess {
            base: Box::new(Expr { kind: ExprKind::Variable(String::from_str(name)), span }),
            field_name: String::from_str(field),
            field_name_span: span,
        },
        span,
    }
}

fn field_value(name: String, value: Expr, span: Span) -> (r: FieldValue)
    ensures
        r == (FieldValue { generated: true, name, name_span: span, value, span }),
{
    FieldValue { generated: true, name, value, name_span: span, span }
}

/// `e` is the zero value of `ty` as far as its outer form goes: `false`,
/// `""`, `0` or `0.0` of a builtin scalar, an array of `length` elements, a
/// product of the named type without a base value.
pub open spec fn zero_value(ty: TypeRef, e: Expr) -> bool {
    match ty.kind {
        TypeRefKind::Array { length, .. } => e.kind matches ExprKind::Array(vs) && vs@.len() == length,
        TypeRefKind::Named(n) => match builtin_named(n@) {
            Some(Type::Bool) => e.kind == ExprKind::Boolean(false),
            Some(Type::String) => e.kind matches ExprKind::String(text) && text@.len() == 0,
            Some(Type::Integer(t)) => e.kind matches ExprKind::Integer(lit) && (lit.spec_digits() == "0"@
                && lit.spec_explicit_type() == Some(t)),
            Some(t) => e.kind matches ExprKind::Float { text, explicit_type } && (text@ == "0.0"@ && explicit_type
                == Some(t)),
            None => e.kind matches ExprKind::Construct { type_path, base, .. } && (type_path@ == n@ && base is None),
        },
        TypeRefKind::ArrayConstant { .. } => true,
    }
}

/// The storage names and types of the payload fields of every variant
/// among the first `upto` of `vs` other than `index`, in declaration order.
pub open spec fn inactive_storage(vs: Seq<VariantShape>, index: int, upto: int) -> Seq<(Seq<char>, TypeRef)>
    decreases upto,
{
    if upto <= 0 {
        Seq::empty()
    } else if upto - 1 == index {
        inactive_storage(vs, index, upto - 1)
    } else {
        inactive_storage(vs, index, upto - 1) + variant_storage(vs[upto - 1])
    }
}

/// The storage names and types of the payload fields of `v`, in order.
pub open spec fn variant_storage(v: VariantShape) -> Seq<(Seq<char>, TypeRef)> {
    Seq::new(v.fields@.len(), |f: int| (payload_name(v.name@, v.fields@[f].name@), v.fields@[f].type_ref))
}

/// `values` hold, in order, a generated zero for each entry of `storage`.
pub open spec fn zeros_for(storage: Seq<(Seq<char>, TypeRef)>, values: Seq<FieldValue>) -> bool {
    &&& values.len() == storage.len()
    &&& forall|j: int| 0 <= j < storage.len() ==> {
        &&& (#[trigger] values[j]).name@ == storage[j].0
        &&& values[j].generated
        &&& zero_value(storage[j].1, values[j].value)
    }
}

/// The position, among the payload storage fields, of variant `k`'s first field.
pub open spec fn payload_offset(variants: Seq<VariantDefinition>, k: int) -> int
    decreases k,
{
    if k <= 0 {
        0
    } else {
        payload_offset(variants, k - 1) + variants[k - 1].fields@.len()
    }
}

/// `storage` holds payload field `field` of `variant`: same type and
/// positions, the payload name, no default.
pub open spec fn stores(storage: FieldDefinition, variant: VariantDefinition, field: FieldDefinition) -> bool {
    &&& storage.name@ == payload_name(variant.name@, field.name@)
    &&& storage.type_ref == field.type_ref
    &&& storage.default is None
    &&& storage.name_span == field.name_span
    &&& storage.span == field.span
}

/// An enum's variant names are distinct.
pub open spec fn variant_names_distinct(variants: Seq<VariantDefinition>) -> bool {
    forall|i: int, j: int| 0 <= i < j < variants.len() ==> variants[i].name@ != variants[j].name@
}

/// Within each variant, payload field names are distinct.
pub open spec fn payload_names_distinct(variants: Seq<VariantDefinition>) -> bool {
    forall|v: int, i: int, j: int|
        0 <= v < variants.len() && 0 <= i < j < variants[v].fields@.len() ==> variants[v].fields@[i].name@
            != variants[v].fields@[j].name@
}

/// No payload field has a default.
pub open spec fn payload_without_defaults(variants: Seq<VariantDefinition>) -> bool {
    forall|v: int, i: int|
        0 <= v < variants.len() && 0 <= i < variants[v].fields@.len() ==> variants[v].fields@[i].default is None
}

/// A well-formed enum: at least one variant, distinct variant names, distinct
/// payload names per variant, and no payload defaults.
pub open spec fn enum_well_formed(variants: Seq<VariantDefinition>) -> bool {
    &&& variants.len() > 0
    &&& variant_names_distinct(variants)
    &&& payload_names_distinct(variants)
    &&& payload_without_defaults(variants)
}

/// The lowered storage of an enum: the tag, then every variant's payload
/// fields in declaration order.
pub open spec fn enum_storage(
    fields: Seq<FieldDefinition>,
    variants: Seq<VariantDefinition>,
    name_span: Span,
) -> bool {
    &&& fields.len() == 1 + payload_offset(variants, variants.len() as int)
    &&& fields[0].name@ == tag_name()
    &&& fields[0].type_ref.kind matches TypeRefKind::Named(n) && n@ == "i64"@
    &&& fields[0].type_ref.span == name_span
    &&& fields[0].default is None
    &&& fields[0].name_span == name_span
    &&& fields[0].span == name_span
    &&& forall|v: int, i: int|
        0 <= v < variants.len() && 0 <= i < variants[v].fields@.len() ==> stores(
            #[trigger] fields[1 + payload_offset(variants, v) + i],
            variants[v],
            variants[v].fields@[i],
        )
}

proof fn lemma_offset_monotone(variants: Seq<VariantDefinition>, a: int, b: int)
    requires
        0 <= a <= b <= variants.len(),
    ensures
        payload_offset(variants, a) <= payload_offset(variants, b),
    decreases b - a,
{
    if a < b {
        lemma_offset_monotone(variants, a, b - 1);
    }
}

/// Lays out one type definition: an enum gets its tag and payload storage,
/// after its variants are checked; a product type is left as it is.
fn layout_enum(d: &mut TypeDefinition) -> (r: Result<(), Diagnostic>)
    ensures
        final(d).variants == old(d).variants,
        final(d).name == old(d).name,
        final(d).name_span == old(d).name_span,
        final(d).span == old(d).span,
        old(d).variants is None ==> r is Ok && final(d).fields == old(d).fields,
        old(d).variants matches Some(vs) ==> (r is Ok <==> enum_well_formed(vs@)),
        old(d).variants matches Some(vs) ==> (r is Ok ==> enum_storage(final(d).fields@, vs@, old(d).name_span)),
        old(d).variants is Some && r is Ok ==> forall|f: int|
            0 <= f < final(d).fields@.len() ==> (#[trigger] final(d).fields@[f]).default is None,
        r matches Err(e) ==> old(d).variants matches Some(vs) && {
            ||| vs@.len() == 0 && e.message@ == "an enum requires at least one variant"@ && e.span == Some(old(d).span)
            ||| exists|j: int| 0 <= j < vs@.len() && e.message@ == "duplicate variant "@ + vs@[j].name@
                && e.span == Some(vs@[j].name_span)
                && exists|i: int| 0 <= i < j && (#[trigger] vs@[i]).name@ == vs@[j].name@
            ||| exists|v: int, j: int| 0 <= v < vs@.len() && 0 <= j < vs@[v].fields@.len()
                && e.message@ == "duplicate payload field "@ + vs@[v].fields@[j].name@
                && e.span == Some(vs@[v].fields@[j].name_span)
                && exists|i: int| 0 <= i < j && (#[trigger] vs@[v].fields@[i]).name@ == vs@[v].fields@[j].name@
            ||| exists|v: int, j: int| 0 <= v < vs@.len() && 0 <= j < vs@[v].fields@.len()
                && e.message@ == "enum payload fields cannot have defaults"@
                && e.span == Some(vs@[v].fields@[j].span)
                && vs@[v].fields@[j].default is Some
        },
{
    let variants = match &d.variants {
        None => return Ok(()),
        Some(variants) => variants,
    };
    if variants.len() == 0 {
        return Err(Diagnostic::new(String::from_str("an enum requires at least one variant"), d.span));
    }
    let mut fields: Vec<FieldDefinition> = Vec::new();
    fields.push(FieldDefinition {
        name: String::from_str("$tag"),
        name_span: d.name_span,
        type_ref: named("i64", d.name_span),
        default: None,
        span: d.name_span,
    });
    let mut names: Vec<String> = Vec::new();
    let mut v: usize = 0;
    while v < variants.len()
        invariant
            *d == *old(d),
            d.variants == Some(*variants),
            v <= variants@.len(),
            names@.len() == v,
            forall|k: int| 0 <= k < v ==> (#[trigger] names@[k])@ == variants@[k].name@,
            variant_names_distinct(variants@.take(v as int)),
            payload_names_distinct(variants@.take(v as int)),
            payload_without_defaults(variants@.take(v as int)),
            fields@.len() == 1 + payload_offset(variants@, v as int),
            fields@[0].name@ == tag_name(),
            fields@[0].type_ref.kind matches TypeRefKind::Named(n) && n@ == "i64"@,
            fields@[0].type_ref.span == d.name_span,
            fields@[0].default is None,
            fields@[0].name_span == d.name_span,
            fields@[0].span == d.name_span,
            forall|j: int| 0 <= j < fields@.len() ==> (#[trigger] fields@[j]).default is None,
            forall|w: int, i: int|
                0 <= w < v && 0 <= i < variants@[w].fields@.len() ==> stores(
                    #[trigger] fields@[1 + payload_offset(variants@, w) + i],
                    variants@[w],
                    variants@[w].fields@[i],
                ),
        decreases variants@.len() - v,
    {
        let variant = &variants[v];
        if contains_text(&names, variant.name.as_str()) {
            return Err(Diagnostic::new(joined("duplicate variant ", variant.name.as_str()), variant.name_span));
        }
        names.push(variant.name.clone());
        let mut seen: Vec<String> = Vec::new();
        let mut j: usize = 0;
        let ghost base = fields@.len();
        proof {
            lemma_offset_monotone(variants@, 0, v as int);
        }
        while j < variant.fields.len()
            invariant
                *d == *old(d),
                d.variants == Some(*variants),
                v < variants@.len(),
                *variant == variants@[v as int],
                j <= variant.fields@.len(),
                seen@.len() == j,
                forall|k: int| 0 <= k < j ==> (#[trigger] seen@[k])@ == variant.fields@[k].name@,
                forall|a: int, b: int| 0 <= a < b < j ==> variant.fields@[a].name@ != variant.fields@[b].name@,
                forall|a: int| 0 <= a < j ==> variant.fields@[a].default is None,
                base == 1 + payload_offset(variants@, v as int),
                base >= 1,
                fields@.len() == base + j,
                fields@[0].name@ == tag_name(),
                fields@[0].type_ref.kind matches TypeRefKind::Named(n) && n@ == "i64"@,
                fields@[0].type_ref.span == d.name_span,
                fields@[0].default is None,
                fields@[0].name_span == d.name_span,
                fields@[0].span == d.name_span,
                forall|j: int| 0 <= j < fields@.len() ==> (#[trigger] fields@[j]).default is None,
                forall|w: int, i: int|
                    0 <= w < v && 0 <= i < variants@[w].fields@.len() ==> stores(
                        #[trigger] fields@[1 + payload_offset(variants@, w) + i],
                        variants@[w],
                        variants@[w].fields@[i],
                    ),
                forall|i: int| 0 <= i < j ==> stores(
                    #[trigger] fields@[base + i],
                    variants@[v as int],
                    variants@[v as int].fields@[i],
                ),
            decreases variant.fields@.len() - j,
        {
            let field = &variant.fields[j];
            if contains_text(&seen, field.name.as_str()) {
                return Err(Diagnostic::new(joined("duplicate payload field ", field.name.as_str()), field.name_span));
            }
            if field.default.is_some() {
                return Err(Diagnostic::new(String::from_str("enum payload fields cannot have defaults"), field.span));
            }
            seen.push(field.name.clone());
            let ghost before = fields@;
            fields.push(FieldDefinition {
                name: payload(variant.name.as_str(), field.name.as_str()),
                name_span: field.name_span,
                type_ref: copy_type_ref(&field.type_ref),
                default: None,
                span: field.span,
            });
            proof {
                assert forall|w: int, i: int|
                    0 <= w < v && 0 <= i < variants@[w].fields@.len() implies stores(
                        #[trigger] fields@[1 + payload_offset(variants@, w) + i],
                        variants@[w],
                        variants@[w].fields@[i],
                    ) by {
                    lemma_offset_monotone(variants@, w + 1, v as int);
                    lemma_offset_monotone(variants@, 0, w);
                    assert(payload_offset(variants@, w + 1) == payload_offset(variants@, w) + variants@[w].fields@.len());
                    assert(fields@[1 + payload_offset(variants@, w) + i] == before[1 + payload_offset(variants@, w) + i]);
                }
                assert forall|a: int, b: int| 0 <= a < b < j + 1 implies variant.fields@[a].name@ != variant.fields@[b].name@ by {
                    if b == j {
                        assert(seen@[a]@ == variant.fields@[a].name@);
                    }
                }
            }
            j = j + 1;
        }
        proof {
            let t = variants@.take(v as int + 1);
            assert(t.take(v as int) =~= variants@.take(v as int));
            assert(t[v as int] == variants@[v as int]);
            assert forall|w: int, i: int|
                0 <= w < v + 1 && 0 <= i < variants@[w].fields@.len() implies stores(
                    #[trigger] fields@[1 + payload_offset(variants@, w) + i],
                    variants@[w],
                    variants@[w].fields@[i],
                ) by {
                if w == v {
                    assert(fields@[1 + payload_offset(variants@, w) + i] == fields@[base + i]);
                }
            }
            assert forall|a: int, b: int| 0 <= a < b < t.len() implies t[a].name@ != t[b].name@ by {
                if b == v {
                    assert(names@[a]@ == t[a].name@);
                }
            }
        }
        v = v + 1;
    }
    proof {
        assert(variants@.take(variants@.len() as int) =~= variants@);
    }
    d.fields = fields;
    Ok(())
}

/// `s` holds no `match` statement, at any depth.
pub open spec fn match_free(s: Stmt) -> bool
    decreases s,
{
    match s.kind {
        StmtKind::Match { .. } => false,
        StmtKind::Block(body) => forall|i: int| 0 <= i < body@.len() ==> match_free(#[trigger] body@[i]),
        StmtKind::ForEach { body, .. } => forall|i: int| 0 <= i < body@.len() ==> match_free(#[trigger] body@[i]),
        StmtKind::If { then_body, else_body, .. } => {
            &&& forall|i: int| 0 <= i < then_body@.len() ==> match_free(#[trigger] then_body@[i])
            &&& forall|i: int| 0 <= i < else_body@.len() ==> match_free(#[trigger] else_body@[i])
        },
        StmtKind::While { body, .. } => forall|i: int| 0 <= i < body@.len() ==> match_free(#[trigger] body@[i]),
        StmtKind::For { initializer, update, body, .. } => {
            &&& match_free(*initializer)
            &&& match_free(*update)
            &&& forall|i: int| 0 <= i < body@.len() ==> match_free(#[trigger] body@[i])
        },
        _ => true,
    }
}

/// Every product constructor in `e` names a field or a base value.
pub open spec fn expr_plain(e: Expr) -> bool
    decreases e,
{
    match e.kind {
        ExprKind::Construct { base, fields, .. } => {
            &&& (base is Some || fields@.len() > 0)
            &&& (base matches Some(b) ==> expr_plain(*b))
            &&& forall|i: int| 0 <= i < fields@.len() ==> expr_plain(#[trigger] fields@[i].value)
        },
        ExprKind::Call { arguments, .. } => forall|i: int| 0 <= i < arguments@.len() ==> expr_plain(#[trigger] arguments@[i]),
        ExprKind::Array(values) => forall|i: int| 0 <= i < values@.len() ==> expr_plain(#[trigger] values@[i]),
        ExprKind::Convert { value, .. } => expr_plain(*value),
        ExprKind::Unary { value, .. } => expr_plain(*value),
        ExprKind::FieldAccess { base, .. } => expr_plain(*base),
        ExprKind::Binary { left, right, .. } => expr_plain(*left) && expr_plain(*right),
        ExprKind::Logical { left, right, .. } => expr_plain(*left) && expr_plain(*right),
        ExprKind::Index { base, index } => expr_plain(*base) && expr_plain(*index),
        _ => true,
    }
}

/// `s` holds no `match`, and its expressions are plain.
pub open spec fn stmt_plain(s: Stmt) -> bool
    decreases s,
{
    match s.kind {
        StmtKind::Match { .. } => false,
        StmtKind::Block(body) => forall|i: int| 0 <= i < body@.len() ==> stmt_plain(#[trigger] body@[i]),
        StmtKind::Binding { value, .. } => expr_plain(value),
        StmtKind::Assignment { target, value } => {
            &&& forall|i: int| 0 <= i < target.projections@.len() ==> expr_plain((#[trigger] target.projections@[i])->index)
            &&& expr_plain(value)
        },
        StmtKind::Print { value } => expr_plain(value),
        StmtKind::Call { value } => expr_plain(value),
        StmtKind::Return { value } => value matches Some(v) ==> expr_plain(v),
        StmtKind::If { condition, then_body, else_body } => {
            &&& expr_plain(condition)
            &&& forall|i: int| 0 <= i < then_body@.len() ==> stmt_plain(#[trigger] then_body@[i])
            &&& forall|i: int| 0 <= i < else_body@.len() ==> stmt_plain(#[trigger] else_body@[i])
        },
        StmtKind::While { condition, body } => {
            &&& expr_plain(condition)
            &&& forall|i: int| 0 <= i < body@.len() ==> stmt_plain(#[trigger] body@[i])
        },
        StmtKind::For { initializer, condition, update, body } => {
            &&& stmt_plain(*initializer)
            &&& expr_plain(condition)
            &&& stmt_plain(*update)
            &&& forall|i: int| 0 <= i < body@.len() ==> stmt_plain(#[trigger] body@[i])
        },
        StmtKind::ForEach { value, body, .. } => {
            &&& expr_plain(value)
            &&& forall|i: int| 0 <= i < body@.len() ==> stmt_plain(#[trigger] body@[i])
        },
        StmtKind::Break => true,
        StmtKind::Continue => true,
    }
}

/// The defaults of `fields` are plain.
pub open spec fn defaults_plain(fields: Seq<FieldDefinition>) -> bool {
    forall|i: int| 0 <= i < fields.len() ==> ((#[trigger] fields[i]).default matches Some(v) ==> expr_plain(v))
}

/// `item` defines no enum, holds no `match`, and every product constructor
/// in it names a field or a base value.
pub open spec fn item_plain(item: Item) -> bool {
    match item {
        Item::TypeDefinition(d) => d.variants is None && defaults_plain(d.fields@),
        Item::ConstantDefinition(c) => expr_plain(c.value),
        Item::FunctionDefinition(f) => forall|i: int| 0 <= i < f.body@.len() ==> stmt_plain(#[trigger] f.body@[i]),
        Item::Statement(s) => stmt_plain(s),
    }
}

/// `condition` compares the tag of the variable `capture` with `index`.
pub open spec fn tag_test(condition: Expr, capture: Seq<char>, index: usize) -> bool {
    condition.kind matches ExprKind::Binary { op, left, right } && (op == BinaryOp::Equal && (left.kind matches ExprKind::FieldAccess {
        base,
        field_name,
        ..
    } && (field_name@ == tag_name() && (base.kind matches ExprKind::Variable(v) && v@ == capture))) && (right.kind matches ExprKind::Integer(
        lit,
    ) && lit.spec_digits() == decimal(index as nat)))
}

/// `s` dispatches on the tag of `capture`: it tests the variants `indices`
/// but the last one in turn, and runs the last branch when none matched.
pub open spec fn tag_chain(s: Stmt, capture: Seq<char>, indices: Seq<usize>) -> bool
    decreases indices.len(),
{
    if indices.len() <= 1 {
        s.kind is Block
    } else {
        s.kind matches StmtKind::If { condition, else_body, .. } && (tag_test(condition, capture, indices[0])
            && else_body@.len() == 1 && tag_chain(else_body@[0], capture, indices.skip(1)))
    }
}

/// No statement of `body` holds a `match`.
pub open spec fn all_match_free(body: Seq<Stmt>) -> bool {
    forall|i: int| 0 <= i < body.len() ==> match_free(#[trigger] body[i])
}

/// A field as enum lowering reads it: its name and written type.
pub struct FieldShape {
    pub name: String,
    pub type_ref: TypeRef,
}

/// A variant as enum lowering reads it: its name and payload fields.
pub struct VariantShape {
    pub name: String,
    pub fields: Vec<FieldShape>,
}

/// The part of a type definition that enum lowering reads: its name, its
/// variants if it is an enum, and its fields (for an enum, its storage).
pub struct TypeShape {
    pub name: String,
    pub variants: Option<Vec<VariantShape>>,
    pub fields: Vec<FieldShape>,
}

fn field_shapes(fields: &Vec<FieldDefinition>) -> (r: Vec<FieldShape>)
    ensures
        r@.len() == fields@.len(),
        forall|i: int| 0 <= i < r@.len() ==> (#[trigger] r@[i]).name@ == fields@[i].name@ && r@[i].type_ref
            == fields@[i].type_ref,
{
    let mut r: Vec<FieldShape> = Vec::new();
    let mut i: usize = 0;
    while i < fields.len()
        invariant
            i <= fields@.len(),
            r@.len() == i,
            forall|k: int| 0 <= k < i ==> (#[trigger] r@[k]).name@ == fields@[k].name@ && r@[k].type_ref
                == fields@[k].type_ref,
        decreases fields@.len() - i,
    {
        r.push(FieldShape { name: fields[i].name.clone(), type_ref: copy_type_ref(&fields[i].type_ref) });
        i = i + 1;
    }
    r
}

fn type_shape(d: &TypeDefinition) -> (r: TypeShape)
    ensures
        r.name@ == d.name@,
        r.variants is Some <==> d.variants is Some,
        shape_of(r, *d),
{
    let variants = match &d.variants {
        None => None,
        Some(vs) => {
            let mut shapes: Vec<VariantShape> = Vec::new();
            let mut i: usize = 0;
            while i < vs.len()
                invariant
                    i <= vs@.len(),
                    shapes@.len() == i,
                    forall|v: int| 0 <= v < i ==> variant_shape_of(#[trigger] shapes@[v], vs@[v]),
                decreases vs@.len() - i,
            {
                let ghost before = shapes@;
                shapes.push(VariantShape { name: vs[i].name.clone(), fields: field_shapes(&vs[i].fields) });
                proof {
                    assert forall|v: int| 0 <= v < i + 1 implies variant_shape_of(#[trigger] shapes@[v], vs@[v]) by {
                        if v < i {
                            assert(shapes@[v] == before[v]);
                        }
                    }
                }
                i = i + 1;
            }
            Some(shapes)
        },
    };
    TypeShape { name: d.name.clone(), variants, fields: field_shapes(&d.fields) }
}

/// `shape` holds the name and payload fields (names and written types) of
/// the variant `v`.
pub open spec fn variant_shape_of(shape: VariantShape, v: VariantDefinition) -> bool {
    &&& shape.name@ == v.name@
    &&& shape.fields@.len() == v.fields@.len()
    &&& forall|f: int|
        0 <= f < v.fields@.len() ==> (#[trigger] shape.fields@[f]).name@ == v.fields@[f].name@
            && shape.fields@[f].type_ref == v.fields@[f].type_ref
}

/// `shape` holds the name of `d` and, if `d` is an enum, its variants.
pub open spec fn shape_of(shape: TypeShape, d: TypeDefinition) -> bool {
    &&& shape.name@ == d.name@
    &&& match d.variants {
        None => shape.variants is None,
        Some(vs) => (shape.variants matches Some(ws) && ws@.len() == vs@.len() && forall|v: int|
            0 <= v < vs@.len() ==> variant_shape_of(#[trigger] ws@[v], vs@[v])),
    }
}

/// The type definitions among `items`, in order.
pub open spec fn type_definitions(items: Seq<Item>) -> Seq<TypeDefinition>
    decreases items.len(),
{
    if items.len() == 0 {
        Seq::empty()
    } else {
        match items.last() {
            Item::TypeDefinition(d) => type_definitions(items.drop_last()).push(d),
            _ => type_definitions(items.drop_last()),
        }
    }
}

/// `shapes` is a table of the type definitions of `items`, in order.
pub open spec fn shapes_of(shapes: Seq<TypeShape>, items: Seq<Item>) -> bool {
    &&& shapes.len() == type_definitions(items).len()
    &&& forall|j: int| 0 <= j < shapes.len() ==> shape_of(#[trigger] shapes[j], type_definitions(items)[j])
}

/// Lowering `item` over the type table `types` succeeds once its enums are
/// laid out: every expression meets no enum except through a variant
/// constructor, and every `match` covers one enum's variants once.
pub open spec fn item_lowerable(types: Seq<TypeShape>, item: Item) -> bool {
    match item {
        Item::TypeDefinition(d) => d.variants is None ==> forall|f: int|
            0 <= f < d.fields@.len() ==> ((#[trigger] d.fields@[f]).default matches Some(v) ==> expr_simple(types, v)),
        Item::ConstantDefinition(c) => expr_simple(types, c.value),
        Item::FunctionDefinition(f) => forall|i: int| 0 <= i < f.body@.len() ==> stmt_lowerable(types, #[trigger] f.body@[i]),
        Item::Statement(s) => stmt_lowerable(types, s),
    }
}

/// `index` is the position, among the variants of `shape`, of the variant
/// that the `Enum::Variant` path names.
pub open spec fn names_variant(shape: TypeShape, index: usize, path: Seq<char>) -> bool {
    shape.variants matches Some(vs) && (index < vs@.len() && (last_separator(path) matches Some(j) && vs@[index as int].name@
        == path.skip(j + 2)))
}

/// `name` is the storage name of a payload field of the enum `shape`.
pub open spec fn stored_name(shape: TypeShape, name: Seq<char>) -> bool {
    &&& shape.variants is Some
    &&& exists|w: int, f: int|
        0 <= w < shape.variants->Some_0@.len() && 0 <= f < shape.variants->Some_0@[w].fields@.len() && name == payload_name(
            shape.variants->Some_0@[w].name@,
            #[trigger] shape.variants->Some_0@[w].fields@[f].name@,
        )
}

/// The first type of `types` named `name` is an enum.
pub open spec fn names_enum(types: Seq<TypeShape>, name: Seq<char>) -> bool {
    exists|i: int|
        0 <= i < types.len() && (#[trigger] types[i]).name@ == name && types[i].variants is Some && forall|k: int|
            0 <= k < i ==> (#[trigger] types[k]).name@ != name
}

/// `path` reads `Enum::Variant` for an enum `Enum` of `types`.
pub open spec fn variant_path(types: Seq<TypeShape>, path: Seq<char>) -> bool {
    last_separator(path) matches Some(i) && names_enum(types, path.take(i))
}

/// Lowering `e` over `types` meets no enum: every constructor names a
/// product type with a field or a base value.
pub open spec fn expr_simple(types: Seq<TypeShape>, e: Expr) -> bool
    decreases e,
{
    match e.kind {
        ExprKind::Construct { type_path, base, fields, .. } => {
            &&& !names_enum(types, type_path@)
            &&& !variant_path(types, type_path@)
            &&& (base is Some || fields@.len() > 0)
            &&& (base matches Some(b) ==> expr_simple(types, *b))
            &&& forall|i: int| 0 <= i < fields@.len() ==> expr_simple(types, #[trigger] fields@[i].value)
        },
        ExprKind::Call { arguments, .. } => forall|i: int|
            0 <= i < arguments@.len() ==> expr_simple(types, #[trigger] arguments@[i]),
        ExprKind::Array(values) => forall|i: int| 0 <= i < values@.len() ==> expr_simple(types, #[trigger] values@[i]),
        ExprKind::Convert { value, .. } => expr_simple(types, *value),
        ExprKind::Unary { value, .. } => expr_simple(types, *value),
        ExprKind::FieldAccess { base, .. } => expr_simple(types, *base),
        ExprKind::Binary { left, right, .. } => expr_simple(types, *left) && expr_simple(types, *right),
        ExprKind::Logical { left, right, .. } => expr_simple(types, *left) && expr_simple(types, *right),
        ExprKind::Index { base, index } => expr_simple(types, *base) && expr_simple(types, *index),
        _ => true,
    }
}

/// Lowering `s` over `types` succeeds: its expressions meet no enum, and
/// each `match` covers every variant of one enum once, with complete
/// patterns.
pub open spec fn stmt_lowerable(types: Seq<TypeShape>, s: Stmt) -> bool
    decreases s,
{
    match s.kind {
        StmtKind::Match { value, arms } => {
            &&& expr_simple(types, value)
            &&& exists|t: int, indices: Seq<int>| #[trigger] match_exhaustive_at(types, arms@, t, indices)
            &&& forall|i: int, k: int|
                0 <= i < arms@.len() && 0 <= k < arms@[i].body@.len() ==> stmt_lowerable(types, #[trigger] arms@[i].body@[k])
        },
        StmtKind::Block(body) => forall|i: int| 0 <= i < body@.len() ==> stmt_lowerable(types, #[trigger] body@[i]),
        StmtKind::Binding { value, .. } => expr_simple(types, value),
        StmtKind::Assignment { target, value } => {
            &&& forall|i: int|
                0 <= i < target.projections@.len() ==> expr_simple(types, (#[trigger] target.projections@[i])->index)
            &&& expr_simple(types, value)
        },
        StmtKind::Print { value } => expr_simple(types, value),
        StmtKind::Call { value } => expr_simple(types, value),
        StmtKind::Return { value } => value matches Some(v) ==> expr_simple(types, v),
        StmtKind::If { condition, then_body, else_body } => {
            &&& expr_simple(types, condition)
            &&& forall|i: int| 0 <= i < then_body@.len() ==> stmt_lowerable(types, #[trigger] then_body@[i])
            &&& forall|i: int| 0 <= i < else_body@.len() ==> stmt_lowerable(types, #[trigger] else_body@[i])
        },
        StmtKind::While { condition, body } => {
            &&& expr_simple(types, condition)
            &&& forall|i: int| 0 <= i < body@.len() ==> stmt_lowerable(types, #[trigger] body@[i])
        },
        StmtKind::For { initializer, condition, update, body } => {
            &&& stmt_lowerable(types, *initializer)
            &&& expr_simple(types, condition)
            &&& stmt_lowerable(types, *update)
            &&& forall|i: int| 0 <= i < body@.len() ==> stmt_lowerable(types, #[trigger] body@[i])
        },
        StmtKind::ForEach { value, body, .. } => {
            &&& expr_simple(types, value)
            &&& forall|i: int| 0 <= i < body@.len() ==> stmt_lowerable(types, #[trigger] body@[i])
        },
        StmtKind::Break => true,
        StmtKind::Continue => true,
    }
}

/// `path` is resolved, the way `variant` resolves it, to variant `v` of
/// the type at position `t`: the first type named by the part before the
/// last `::`, and its first variant named by the part after it.
pub open spec fn resolves_variant(types: Seq<TypeShape>, path: Seq<char>, t: int, v: int) -> bool {
    last_separator(path) matches Some(s) && {
        &&& 0 <= t < types.len()
        &&& types[t].name@ == path.take(s)
        &&& (forall|k: int| 0 <= k < t ==> (#[trigger] types[k]).name@ != path.take(s))
        &&& (types[t].variants matches Some(vs) && (0 <= v < vs@.len() && vs@[v].name@ == path.skip(s + 2)
            && forall|w: int| 0 <= w < v ==> (#[trigger] vs@[w]).name@ != path.skip(s + 2)))
    }
}

/// The pattern of `arm` names every payload field of `variant` once and no
/// other field, and binds no name twice (`_` aside).
pub open spec fn pattern_complete(variant: VariantShape, given: Seq<PatternField>) -> bool {
    &&& forall|i: int, j: int| 0 <= i < j < given.len() ==> given[i].name@ != given[j].name@
    &&& forall|i: int, j: int|
        0 <= i < j < given.len() && given[i].binding@ != "_"@ && given[j].binding@ != "_"@ ==> given[i].binding@
            != given[j].binding@
    &&& forall|i: int|
        0 <= i < given.len() ==> exists|f: int|
            0 <= f < variant.fields@.len() && (#[trigger] variant.fields@[f]).name@ == (#[trigger] given[i]).name@
    &&& forall|f: int|
        0 <= f < variant.fields@.len() ==> exists|i: int|
            0 <= i < given.len() && (#[trigger] given[i]).name@ == (#[trigger] variant.fields@[f]).name@
}

/// A pattern field before position `f` binds `name`, which is not `_`.
pub open spec fn earlier_binding(given: Seq<PatternField>, f: int, name: Seq<char>) -> bool {
    exists|j: int| 0 <= j < f && given[j].binding@ == name && given[j].binding@ != "_"@
}

/// The arms name variants of the enum at position `t`, each once and in
/// the order `indices`, with complete patterns.
pub open spec fn match_arms_at(types: Seq<TypeShape>, arms: Seq<MatchArm>, t: int, indices: Seq<int>) -> bool {
    &&& arms.len() > 0
    &&& 0 <= t < types.len()
    &&& types[t].variants is Some
    &&& indices.len() == arms.len()
    &&& forall|i: int| 0 <= i < arms.len() ==> resolves_variant(types, (#[trigger] arms[i]).variant@, t, indices[i])
    &&& forall|i: int, j: int| 0 <= i < j < arms.len() ==> indices[i] != indices[j]
    &&& forall|i: int|
        0 <= i < arms.len() ==> pattern_complete(types[t].variants->Some_0@[indices[i]], (#[trigger] arms[i]).fields@)
}

/// `match_arms_at`, and the arms cover every variant of that enum.
pub open spec fn match_exhaustive_at(types: Seq<TypeShape>, arms: Seq<MatchArm>, t: int, indices: Seq<int>) -> bool {
    &&& match_arms_at(types, arms, t, indices)
    &&& arms.len() == types[t].variants->Some_0@.len()
}

/// The bodies of `arms` lower without error.
pub open spec fn arm_bodies_lowerable(types: Seq<TypeShape>, arms: Seq<MatchArm>) -> bool {
    forall|i: int, k: int|
        0 <= i < arms.len() && 0 <= k < arms[i].body@.len() ==> stmt_lowerable(types, #[trigger] arms[i].body@[k])
}

/// The names of the variants before position `k` that `covered` leaves out,
/// in declaration order.
pub open spec fn uncovered_names(variants: Seq<VariantShape>, covered: Seq<int>, k: int) -> Seq<Seq<char>>
    decreases k,
{
    if k <= 0 {
        Seq::empty()
    } else if covered.contains(k - 1) {
        uncovered_names(variants, covered, k - 1)
    } else {
        uncovered_names(variants, covered, k - 1).push(variants[k - 1].name@)
    }
}

/// `names` separated by `, `.
pub open spec fn comma_joined(names: Seq<Seq<char>>) -> Seq<char>
    decreases names.len(),
{
    if names.len() == 0 {
        Seq::empty()
    } else if names.len() == 1 {
        names[0]
    } else {
        comma_joined(names.drop_last()) + ", "@ + names.last()
    }
}

pub proof fn lemma_resolves_unique(types: Seq<TypeShape>, path: Seq<char>, t1: int, v1: int, t2: int, v2: int)
    requires
        resolves_variant(types, path, t1, v1),
        resolves_variant(types, path, t2, v2),
    ensures
        t1 == t2,
        v1 == v2,
{
    let s = last_separator(path)->Some_0;
    if t1 < t2 {
        assert(types[t1].name@ == path.take(s));
    } else if t2 < t1 {
        assert(types[t2].name@ == path.take(s));
    }
    let vs = types[t1].variants->Some_0@;
    if v1 < v2 {
        assert(vs[v1].name@ == path.skip(s + 2));
    } else if v2 < v1 {
        assert(vs[v2].name@ == path.skip(s + 2));
    }
}

/// The arms cover every variant of some enum once, with complete
/// patterns, and their bodies lower without error.
pub open spec fn match_lowerable(types: Seq<TypeShape>, arms: Seq<MatchArm>) -> bool {
    &&& exists|t: int, indices: Seq<int>| #[trigger] match_exhaustive_at(types, arms, t, indices)
    &&& arm_bodies_lowerable(types, arms)
}

/// Where the payload storage of variant `k` starts, counting every
/// variant before it.
pub open spec fn shape_offset(variants: Seq<VariantShape>, k: int) -> int
    decreases k,
{
    if k <= 0 {
        0
    } else {
        shape_offset(variants, k - 1) + variants[k - 1].fields@.len()
    }
}

pub proof fn lemma_shape_offset_monotone(variants: Seq<VariantShape>, a: int, b: int)
    requires
        0 <= a <= b <= variants.len(),
    ensures
        shape_offset(variants, a) <= shape_offset(variants, b),
    decreases b - a,
{
    if a < b {
        lemma_shape_offset_monotone(variants, a, b - 1);
    }
}

/// `fields` gives every payload field of variant `index` of `shape` once,
/// and no other field.
pub open spec fn payload_given(shape: TypeShape, index: int, fields: Seq<FieldValue>) -> bool {
    let declared = shape.variants->Some_0@[index].fields@;
    &&& forall|i: int, j: int| 0 <= i < j < fields.len() ==> fields[i].name@ != fields[j].name@
    &&& forall|i: int|
        0 <= i < fields.len() ==> exists|f: int| 0 <= f < declared.len() && (#[trigger] declared[f]).name@ == (#[trigger] fields[i]).name@
    &&& forall|f: int|
        0 <= f < declared.len() ==> exists|i: int| 0 <= i < fields.len() && (#[trigger] fields[i]).name@ == (#[trigger] declared[f]).name@
}

/// The payload fields of the variants of `shape` other than `index` have
/// built-in types, and there are at most 100000 payload fields in all.
pub open spec fn inactive_scalar(shape: TypeShape, index: int) -> bool {
    let vs = shape.variants->Some_0@;
    &&& forall|w: int, f: int|
        0 <= w < vs.len() && w != index && 0 <= f < vs[w].fields@.len() ==> ((#[trigger] vs[w].fields@[f]).type_ref.kind matches TypeRefKind::Named(
            n,
        ) && builtin_named(n@) is Some)
    &&& shape_offset(vs, vs.len() as int) <= 100000
}

/// `b` is the expression `a` after enum lowering over the known types
/// `types`: a variant constructor becomes a constructor of its enum that
/// holds the variant's index as the tag, then the given payload under its
/// storage names, then a generated zero for each payload field of the other
/// variants in declaration order; everything else keeps its shape, with its
/// operands lowered in the same way.
pub open spec fn expr_lowers(types: Seq<TypeShape>, a: Expr, b: Expr) -> bool
    decreases a,
{
    &&& b.span == a.span
    &&& match a.kind {
        ExprKind::Construct { type_path, type_path_span, base, fields } => if variant_path(types, type_path@) {
            (b.kind matches ExprKind::Construct { type_path: p, type_path_span: s, base: bb, fields: fs } && s
                == type_path_span && bb is None && fs@.len() >= 1 && fs@[0].name@ == tag_name() && (last_separator(
                type_path@,
            ) matches Some(i) && p@ == type_path@.take(i)) && exists|t: int, v: int|
                #[trigger] resolves_variant(types, type_path@, t, v) && {
                    let vs = types[t].variants->Some_0@;
                    &&& fs@.len() >= fields@.len() + 1
                    &&& fs@[0].generated
                    &&& (fs@[0].value.kind matches ExprKind::Integer(lit) && lit.spec_digits() == decimal(v as nat))
                    &&& forall|j: int|
                        0 <= j < fields@.len() ==> {
                            &&& (#[trigger] fs@[j + 1]).name@ == payload_name(vs[v].name@, fields@[j].name@)
                            &&& fs@[j + 1].generated == fields@[j].generated
                            &&& fs@[j + 1].name_span == fields@[j].name_span
                            &&& fs@[j + 1].span == fields@[j].span
                            &&& expr_lowers(types, fields@[j].value, fs@[j + 1].value)
                        }
                    &&& forall|k: int| 1 <= k < fs@.len() ==> stored_name(types[t], #[trigger] fs@[k].name@)
                    &&& zeros_for(inactive_storage(vs, v, vs.len() as int), fs@.skip(fields@.len() + 1int))
                    &&& forall|w: int, f: int|
                        #![trigger vs[w].fields@[f]]
                        0 <= w < vs.len() && 0 <= f < vs[w].fields@.len() ==> exists|k: int|
                            0 <= k < fs@.len() && (#[trigger] fs@[k]).name@ == payload_name(vs[w].name@, vs[w].fields@[f].name@)
                })
        } else {
            (b.kind matches ExprKind::Construct { type_path: p, type_path_span: s, base: bb, fields: fs } && p
                == type_path && s == type_path_span && (match base {
                Some(x) => (bb matches Some(y) && expr_lowers(types, *x, *y)),
                None => bb is None,
            }) && fs@.len() == fields@.len() && forall|i: int|
                0 <= i < fields@.len() ==> {
                    &&& fs@[i].name == (#[trigger] fields@[i]).name
                    &&& fs@[i].generated == fields@[i].generated
                    &&& fs@[i].name_span == fields@[i].name_span
                    &&& fs@[i].span == fields@[i].span
                    &&& expr_lowers(types, fields@[i].value, fs@[i].value)
                })
        },
        ExprKind::Call { name, name_span, arguments } => (b.kind matches ExprKind::Call {
            name: n,
            name_span: s,
            arguments: args,
        } && n == name && s == name_span && args@.len() == arguments@.len() && forall|i: int|
            0 <= i < arguments@.len() ==> expr_lowers(types, #[trigger] arguments@[i], args@[i])),
        ExprKind::Array(values) => (b.kind matches ExprKind::Array(vs) && vs@.len() == values@.len() && forall|i: int|
            0 <= i < values@.len() ==> expr_lowers(types, #[trigger] values@[i], vs@[i])),
        ExprKind::Convert { mode, target, value, syntax } => (b.kind matches ExprKind::Convert {
            mode: m,
            target: t,
            value: v,
            syntax: x,
        } && m == mode && t == target && x == syntax && expr_lowers(types, *value, *v)),
        ExprKind::Unary { op, value } => (b.kind matches ExprKind::Unary { op: o, value: v } && o == op && expr_lowers(
            types,
            *value,
            *v,
        )),
        ExprKind::FieldAccess { base, field_name, field_name_span } => (b.kind matches ExprKind::FieldAccess {
            base: x,
            field_name: f,
            field_name_span: fs,
        } && f == field_name && fs == field_name_span && expr_lowers(types, *base, *x)),
        ExprKind::Binary { op, left, right } => (b.kind matches ExprKind::Binary { op: o, left: l, right: r } && o == op
            && expr_lowers(types, *left, *l) && expr_lowers(types, *right, *r)),
        ExprKind::Logical { op, left, right } => (b.kind matches ExprKind::Logical { op: o, left: l, right: r } && o
            == op && expr_lowers(types, *left, *l) && expr_lowers(types, *right, *r)),
        ExprKind::Index { base, index } => (b.kind matches ExprKind::Index { base: x, index: y } && expr_lowers(
            types,
            *base,
            *x,
        ) && expr_lowers(types, *index, *y)),
        _ => b.kind == a.kind,
    }
}

/// `b` lists the values of `a` lowered, in order.
pub open spec fn exprs_lower(types: Seq<TypeShape>, a: Seq<Expr>, b: Seq<Expr>) -> bool {
    &&& b.len() == a.len()
    &&& forall|i: int| 0 <= i < a.len() ==> expr_lowers(types, #[trigger] a[i], b[i])
}

/// `b` is the constructor field `a` with its value lowered.
pub open spec fn field_lowers(types: Seq<TypeShape>, a: FieldValue, b: FieldValue) -> bool {
    &&& b.name == a.name
    &&& b.generated == a.generated
    &&& b.name_span == a.name_span
    &&& b.span == a.span
    &&& expr_lowers(types, a.value, b.value)
}

/// `b` is the assignment projection `a` with its index lowered.
pub open spec fn projection_lowers(types: Seq<TypeShape>, a: AssignmentProjection, b: AssignmentProjection) -> bool {
    &&& b->span == a->span
    &&& expr_lowers(types, a->index, b->index)
}

/// `s` binds, immutably, a value of the type named `enum_name`.
pub open spec fn subject_binding(s: Stmt, enum_name: Seq<char>) -> bool {
    match s.kind {
        StmtKind::Binding { mutable, type_spec, .. } => !mutable && match type_spec {
            TypeSpec::Explicit(ty) => match ty.kind {
                TypeRefKind::Named(n) => n@ == enum_name,
                _ => false,
            },
            TypeSpec::Infer => false,
        },
        _ => false,
    }
}

/// The arms of `s` if it is a `match`.
pub open spec fn match_arms(s: Stmt) -> Seq<MatchArm> {
    match s.kind {
        StmtKind::Match { arms, .. } => arms@,
        _ => Seq::empty(),
    }
}

/// The name under which the `match` lowered with counter `k` binds its subject.
pub open spec fn match_capture(k: nat) -> Seq<char> {
    "$match"@ + decimal(k)
}

/// What a `match` over `arms` becomes: an immutable binding of the subject,
/// typed by its enum, to a fresh name, then a chain of tests of its tag over
/// the variants of that enum, in the order of the arms, each variant once.
pub open spec fn match_block(types: Seq<TypeShape>, arms: Seq<MatchArm>, block: Seq<Stmt>) -> bool {
    block.len() == 2 && (block[0].kind matches StmtKind::Binding { name, .. } && exists|t: int, indices: Seq<usize>|
        #![trigger types[t], tag_chain(block[1], name@, indices)]
        {
            &&& 0 <= t < types.len()
            &&& types[t].variants matches Some(vs)
            &&& subject_binding(block[0], types[t].name@)
            &&& indices.len() == vs@.len()
            &&& indices.len() == arms.len()
            &&& forall|i: int, j: int| 0 <= i < j < indices.len() ==> indices[i] != indices[j]
            &&& forall|i: int| 0 <= i < indices.len() ==> names_variant(types[t], #[trigger] indices[i], arms[i].variant@)
            &&& tag_chain(block[1], name@, indices)
        })
}

/// `s` is a `match` whose subject and arm bodies lower, whose arms name
/// variants of one enum each once with complete patterns, but which leaves
/// a variant of that enum out.
pub open spec fn partial_match(types: Seq<TypeShape>, s: Stmt) -> bool {
    s.kind matches StmtKind::Match { value, arms } && {
        &&& expr_simple(types, value)
        &&& arm_bodies_lowerable(types, arms@)
        &&& exists|t: int, indices: Seq<int>|
            #[trigger] match_arms_at(types, arms@, t, indices) && arms@.len() < types[t].variants->Some_0@.len()
    }
}

/// `s` is a `match` with a subject that lowers and no arm.
pub open spec fn armless_match(types: Seq<TypeShape>, s: Stmt) -> bool {
    s.kind matches StmtKind::Match { value, arms } && expr_simple(types, value) && arms@.len() == 0
}

/// `message` reports a `match` that leaves variants out.
pub open spec fn non_exhaustive_message(message: Seq<char>) -> bool {
    exists|names: Seq<char>| message == "non-exhaustive match; missing variants: "@ + names
}

/// `b` is the statement `a` after enum lowering over `types`: a `match`
/// becomes a block that first binds the lowered subject; every other
/// statement keeps its shape with its parts lowered.
pub open spec fn stmt_lowers(types: Seq<TypeShape>, a: Stmt, b: Stmt) -> bool
    decreases a,
{
    &&& b.span == a.span
    &&& match a.kind {
        StmtKind::Match { value, arms } => (b.kind matches StmtKind::Block(block) && block@.len() == 2
            && (block@[0].kind matches StmtKind::Binding { value: v, .. } && expr_lowers(types, value, v))
            && match_block(types, arms@, block@)),
        StmtKind::Block(body) => (b.kind matches StmtKind::Block(out) && out@.len() == body@.len() && forall|i: int|
            0 <= i < body@.len() ==> stmt_lowers(types, #[trigger] body@[i], out@[i])),
        StmtKind::Binding { mutable, name, type_spec, value } => (b.kind matches StmtKind::Binding {
            mutable: m,
            name: n,
            type_spec: t,
            value: v,
        } && m == mutable && n == name && t == type_spec && expr_lowers(types, value, v)),
        StmtKind::Assignment { target, value } => (b.kind matches StmtKind::Assignment { target: t, value: v }
            && t.name == target.name && t.name_span == target.name_span && t.span == target.span
            && t.projections@.len() == target.projections@.len() && (forall|i: int|
            0 <= i < target.projections@.len() ==> projection_lowers(
                types,
                #[trigger] target.projections@[i],
                t.projections@[i],
            )) && expr_lowers(types, value, v)),
        StmtKind::Print { value } => (b.kind matches StmtKind::Print { value: v } && expr_lowers(types, value, v)),
        StmtKind::Call { value } => (b.kind matches StmtKind::Call { value: v } && expr_lowers(types, value, v)),
        StmtKind::Return { value } => (b.kind matches StmtKind::Return { value: v } && match value {
            Some(x) => (v matches Some(y) && expr_lowers(types, x, y)),
            None => v is None,
        }),
        StmtKind::If { condition, then_body, else_body } => (b.kind matches StmtKind::If {
            condition: c,
            then_body: t,
            else_body: e,
        } && expr_lowers(types, condition, c) && t@.len() == then_body@.len() && e@.len() == else_body@.len()
            && (forall|i: int| 0 <= i < then_body@.len() ==> stmt_lowers(types, #[trigger] then_body@[i], t@[i]))
            && (forall|i: int| 0 <= i < else_body@.len() ==> stmt_lowers(types, #[trigger] else_body@[i], e@[i]))),
        StmtKind::While { condition, body } => (b.kind matches StmtKind::While { condition: c, body: out }
            && expr_lowers(types, condition, c) && out@.len() == body@.len() && forall|i: int|
            0 <= i < body@.len() ==> stmt_lowers(types, #[trigger] body@[i], out@[i])),
        StmtKind::For { initializer, condition, update, body } => (b.kind matches StmtKind::For {
            initializer: i2,
            condition: c,
            update: u,
            body: out,
        } && stmt_lowers(types, *initializer, *i2) && expr_lowers(types, condition, c) && stmt_lowers(
            types,
            *update,
            *u,
        ) && out@.len() == body@.len() && forall|i: int|
            0 <= i < body@.len() ==> stmt_lowers(types, #[trigger] body@[i], out@[i])),
        StmtKind::ForEach { index, element, value, body, header_span } => (b.kind matches StmtKind::ForEach {
            index: i2,
            element: e2,
            value: v,
            body: out,
            header_span: h,
        } && i2 == index && e2 == element && h == header_span && expr_lowers(types, value, v) && out@.len()
            == body@.len() && forall|i: int| 0 <= i < body@.len() ==> stmt_lowers(types, #[trigger] body@[i], out@[i])),
        StmtKind::Break => b.kind is Break,
        StmtKind::Continue => b.kind is Continue,
    }
}

/// `b` lists the statements `a` lowered, in order.
pub open spec fn stmts_lower(types: Seq<TypeShape>, a: Seq<Stmt>, b: Seq<Stmt>) -> bool {
    &&& b.len() == a.len()
    &&& forall|i: int| 0 <= i < a.len() ==> stmt_lowers(types, #[trigger] a[i], b[i])
}

/// The defaults of `b` are those of `a`, lowered.
pub open spec fn defaults_lower(types: Seq<TypeShape>, a: Seq<FieldDefinition>, b: Seq<FieldDefinition>) -> bool {
    forall|i: int| 0 <= i < a.len() ==> match (#[trigger] a[i]).default {
        Some(x) => (b[i].default matches Some(y) && expr_lowers(types, x, y)),
        None => true,
    }
}

struct Lowerer {
    types: Vec<TypeShape>,
    next_match: usize,
}

impl Lowerer {
    /// No known type is an enum.
    spec fn enum_free(&self) -> bool {
        forall|t: int| 0 <= t < self.types@.len() ==> (#[trigger] self.types@[t]).variants is None
    }

    fn find_type(&self, name: &str) -> (r: Option<usize>)
        ensures
            r matches Some(i) ==> i < self.types@.len() && self.types@[i as int].name@ == name@,
            r matches Some(i) ==> forall|k: int| 0 <= k < i ==> (#[trigger] self.types@[k]).name@ != name@,
            r is None ==> forall|i: int| 0 <= i < self.types@.len() ==> (#[trigger] self.types@[i]).name@ != name@,
    {
        let mut i: usize = 0;
        while i < self.types.len()
            invariant
                i <= self.types@.len(),
                forall|k: int| 0 <= k < i ==> (#[trigger] self.types@[k]).name@ != name@,
            decreases self.types@.len() - i,
        {
            if same_text(self.types[i].name.as_str(), name) {
                return Some(i);
            }
            i = i + 1;
        }
        None
    }

    /// Whether `name` is an enum.
    fn is_enum(&self, name: &str) -> (r: bool)
        ensures
            r == names_enum(self.types@, name@),
    {
        match self.find_type(name) {
            Some(t) => self.types[t].variants.is_some(),
            None => false,
        }
    }

    /// Resolves `Enum::Variant` to the enum and the variant's position.
    fn variant(&self, path: &str, span: Span) -> (r: Result<(usize, usize), Diagnostic>)
        ensures
            r matches Ok((t, v)) ==> {
                &&& t < self.types@.len()
                &&& self.types@[t as int].variants matches Some(vs) && (v < vs@.len() && (last_separator(
                    path@,
                ) matches Some(i) && (self.types@[t as int].name@ == path@.take(i) && vs@[v as int].name@
                    == path@.skip(i + 2))))
            },
            r matches Ok((t, v)) ==> resolves_variant(self.types@, path@, t as int, v as int),
            (exists|t: int, v: int| resolves_variant(self.types@, path@, t, v)) ==> r is Ok,
            r matches Err(e) ==> e.span == Some(span) && {
                ||| last_separator(path@) is None && e.message@ == "a match arm requires Enum::Variant"@
                ||| last_separator(path@) matches Some(i) && e.message@ == "unknown enum "@ + path@.take(i)
                ||| last_separator(path@) matches Some(i) && e.message@ == path@.take(i) + " is not an enum"@
                ||| e.message@ == "unknown variant "@ + path@
            },
    {
        let (name, variant) = match split_last_path(path) {
            Some(parts) => parts,
            None => return Err(Diagnostic::new(String::from_str("a match arm requires Enum::Variant"), span)),
        };
        let t = match self.find_type(name) {
            Some(t) => t,
            None => return Err(Diagnostic::new(joined("unknown enum ", name), span)),
        };
        let variants = match &self.types[t].variants {
            Some(vs) => vs,
            None => return Err(Diagnostic::new(joined(name, " is not an enum"), span)),
        };
        let mut v: usize = 0;
        while v < variants.len()
            invariant
                v <= variants@.len(),
                t < self.types@.len(),
                self.types@[t as int].variants == Some(*variants),
                self.types@[t as int].name@ == name@,
                last_separator(path@) matches Some(i) && (name@ == path@.take(i) && variant@ == path@.skip(i + 2)),
                forall|w: int| 0 <= w < v ==> (#[trigger] variants@[w]).name@ != variant@,
                forall|k: int| 0 <= k < t ==> (#[trigger] self.types@[k]).name@ != name@,
            decreases variants@.len() - v,
        {
            if same_text(variants[v].name.as_str(), variant) {
                return Ok((t, v));
            }
            v = v + 1;
        }
        Err(Diagnostic::new(joined("unknown variant ", path), span))
    }

    /// The zero value of a written type, as the inactive payloads of an enum
    /// value hold it: `false`, `""`, `0` and `0.0` of the type, arrays and
    /// products of zeros. No default and no user code runs. `budget` bounds
    /// the number of nodes; the rest of it is returned.
    #[verifier::loop_isolation(false)]
    fn zero(&self, ty: &TypeRef, span: Span, path: &mut Vec<String>, limit: usize) -> (r: Result<
        (Expr, usize),
        Diagnostic,
    >)
        ensures
            r matches Ok((e, rest)) ==> {
                &&& rest < limit
                &&& e.span == span
                &&& final(path)@ == old(path)@
                &&& zero_value(*ty, e)
                &&& ty.kind matches TypeRefKind::Array { length, .. } ==> (e.kind matches ExprKind::Array(vs)
                    && vs@.len() == length)
                &&& ty.kind matches TypeRefKind::Named(n) ==> match builtin_named(n@) {
                    Some(Type::Bool) => e.kind == ExprKind::Boolean(false),
                    Some(Type::String) => e.kind matches ExprKind::String(text) && text@.len() == 0,
                    Some(Type::Integer(t)) => e.kind matches ExprKind::Integer(lit) && (lit.spec_digits()
                        == "0"@ && lit.spec_explicit_type() == Some(t)),
                    Some(t) => e.kind matches ExprKind::Float { text, explicit_type } && (text@ == "0.0"@
                        && explicit_type == Some(t)),
                    None => e.kind matches ExprKind::Construct { type_path, base, .. } && (type_path@ == n@
                        && base is None),
                }
            },
            limit > 0 && old(path)@.len() < 128 && (ty.kind matches TypeRefKind::Named(n) && builtin_named(n@) is Some)
                ==> (r matches Ok((e, rest)) && rest == limit - 1),
            limit == 0 || old(path)@.len() >= 128 ==> (r matches Err(e) && e.message@
                == "enum inactive storage exceeds the expansion limit"@ && e.span == Some(span)),
            limit > 0 && old(path)@.len() < 128 && (ty.kind matches TypeRefKind::Array { length, .. } && length >= limit)
                ==> (r matches Err(e) && e.message@ == "enum inactive storage exceeds the expansion limit"@ && e.span
                == Some(span)),
            r matches Err(e) ==> {
                ||| e.message@ == "enum inactive storage exceeds the expansion limit"@ && e.span == Some(span)
                ||| e.message@ == "enum payload has infinite size"@
                ||| e.message@.len() >= 13 && e.message@.take(13) == "unknown type "@
                ||| e.message@ == "array length constant is not resolved"@
            },
        decreases limit,
    {
        if limit == 0 || path.len() >= 128 {
            return Err(Diagnostic::new(String::from_str("enum inactive storage exceeds the expansion limit"), span));
        }
        let mut budget = limit - 1;
        let kind = match &ty.kind {
            TypeRefKind::Array { element, length } => {
                if *length > budget {
                    return Err(Diagnostic::new(String::from_str("enum inactive storage exceeds the expansion limit"), span));
                }
                let mut values: Vec<Expr> = Vec::new();
                let mut i: usize = 0;
                while i < *length
                    invariant
                        i <= *length,
                        values@.len() == i,
                        budget < limit,
                        path@ == old(path)@,
                    decreases *length - i,
                {
                    let (value, rest) = match self.zero(element, span, path, budget) {
                        Ok(pair) => pair,
                        Err(e) => return Err(e),
                    };
                    values.push(value);
                    budget = rest;
                    i = i + 1;
                }
                ExprKind::Array(values)
            },
            TypeRefKind::Named(name) => match Type::from_name(name.as_str()) {
                Some(Type::Bool) => ExprKind::Boolean(false),
                Some(Type::String) => ExprKind::String(String::new()),
                Some(Type::Integer(t)) => {
                    proof {
                        reveal_strlit("0");
                    }
                    ExprKind::Integer(IntegerLiteral::with_type(String::from_str("0"), t))
                },
                Some(t) => ExprKind::Float { text: String::from_str("0.0"), explicit_type: Some(t) },
                None => {
                    if contains_text(path, name.as_str()) {
                        return Err(Diagnostic::new(String::from_str("enum payload has infinite size"), ty.span));
                    }
                    let t = match self.find_type(name.as_str()) {
                        Some(t) => t,
                        None => {
                            let e = joined("unknown type ", name.as_str());
                            proof {
                                reveal_strlit("unknown type ");
                                assert(e@.take(13) =~= "unknown type "@);
                            }
                            return Err(Diagnostic::new(e, ty.span));
                        },
                    };
                    path.push(name.clone());
                    let ghost pushed = path@;
                    let mut fields: Vec<FieldValue> = Vec::new();
                    let mut i: usize = 0;
                    while i < self.types[t].fields.len()
                        invariant
                            t < self.types@.len(),
                            i <= self.types@[t as int].fields@.len(),
                            budget < limit,
                            path@ == pushed,
                        decreases self.types@[t as int].fields@.len() - i,
                    {
                        let (value, rest) = match self.zero(&self.types[t].fields[i].type_ref, span, path, budget) {
                            Ok(pair) => pair,
                            Err(e) => return Err(e),
                        };
                        fields.push(field_value(self.types[t].fields[i].name.clone(), value, span));
                        budget = rest;
                        i = i + 1;
                    }
                    path.pop();
                    assert(path@ =~= old(path)@);
                    ExprKind::Construct { type_path: name.clone(), type_path_span: span, base: None, fields }
                },
            },
            TypeRefKind::ArrayConstant { .. } => {
                return Err(Diagnostic::new(String::from_str("array length constant is not resolved"), ty.span));
            },
        };
        Ok((Expr { kind, span }, budget))
    }

    /// Lowers every expression of a list, in order.
    #[verifier::loop_isolation(false)]
    fn exprs(&mut self, values: Vec<Expr>) -> (r: Result<Vec<Expr>, Diagnostic>)
        ensures
            r matches Ok(out) ==> exprs_lower(old(self).types@, values@, out@),
            final(self).types == old(self).types,
            final(self).next_match == old(self).next_match,
            (forall|i: int| 0 <= i < values@.len() ==> expr_simple(old(self).types@, #[trigger] values@[i])) ==> r is Ok,
            old(self).enum_free() && (forall|i: int| 0 <= i < values@.len() ==> expr_plain(#[trigger] values@[i])) ==> r is Ok,
        decreases values,
    {
        let ghost orig = values@;
        let mut rest = values;
        let mut out: Vec<Expr> = Vec::new();
        while rest.len() > 0
            invariant
                out@.len() + rest@.len() == orig.len(),
                rest@ == orig.skip(out@.len() as int),
                self.types == old(self).types,
                self.next_match == old(self).next_match,
                exprs_lower(old(self).types@, orig.take(out@.len() as int), out@),
            decreases rest@.len(),
        {
            let ghost k = out@.len() as int;
            let item = rest.remove(0);
            assert(item == orig[k]);
            assert(rest@ =~= orig.skip(k + 1));
            let lowered = self.expr(item)?;
            let ghost before = out@;
            out.push(lowered);
            proof {
                assert forall|i: int| 0 <= i < k + 1 implies expr_lowers(old(self).types@, #[trigger] orig.take(k + 1)[i], out@[i]) by {
                    if i < k {
                        assert(orig.take(k)[i] == orig[i]);
                        assert(out@[i] == before[i]);
                    }
                }
            }
        }
        assert(orig.take(orig.len() as int) =~= orig);
        Ok(out)
    }

    /// Lowers the values of product constructor fields.
    #[verifier::loop_isolation(false)]
    fn field_values(&mut self, fields: Vec<FieldValue>) -> (r: Result<Vec<FieldValue>, Diagnostic>)
        ensures
            r matches Ok(out) ==> out@.len() == fields@.len() && forall|i: int|
                0 <= i < fields@.len() ==> field_lowers(old(self).types@, #[trigger] fields@[i], out@[i]),
            final(self).types == old(self).types,
            final(self).next_match == old(self).next_match,
            (forall|i: int| 0 <= i < fields@.len() ==> expr_simple(old(self).types@, #[trigger] fields@[i].value)) ==> r is Ok,
            old(self).enum_free() && (forall|i: int| 0 <= i < fields@.len() ==> expr_plain(#[trigger] fields@[i].value)) ==> r is Ok,
        decreases fields,
    {
        let ghost orig = fields@;
        let mut rest = fields;
        let mut out: Vec<FieldValue> = Vec::new();
        while rest.len() > 0
            invariant
                out@.len() + rest@.len() == orig.len(),
                rest@ == orig.skip(out@.len() as int),
                self.types == old(self).types,
                self.next_match == old(self).next_match,
                forall|i: int| 0 <= i < out@.len() ==> field_lowers(old(self).types@, #[trigger] orig[i], out@[i]),
            decreases rest@.len(),
        {
            let ghost k = out@.len() as int;
            let field = rest.remove(0);
            assert(field == orig[k]);
            assert(rest@ =~= orig.skip(k + 1));
            let value = self.expr(field.value)?;
            let ghost before = out@;
            out.push(FieldValue {
                generated: field.generated,
                name: field.name,
                name_span: field.name_span,
                value,
                span: field.span,
            });
            proof {
                assert forall|i: int| 0 <= i < out@.len() implies field_lowers(old(self).types@, #[trigger] orig[i], out@[i]) by {
                    if i < k {
                        assert(out@[i] == before[i]);
                    }
                }
            }
        }
        Ok(out)
    }

    /// Lowers one expression: enum variant constructors become products of
    /// the tag, the given payload and zeroed inactive storage; everything
    /// else keeps its shape with its operands lowered.
    #[verifier::loop_isolation(false)]
    fn expr(&mut self, expr: Expr) -> (r: Result<Expr, Diagnostic>)
        ensures
            r matches Ok(e) ==> expr_lowers(old(self).types@, expr, e),
            final(self).types == old(self).types,
            final(self).next_match == old(self).next_match,
            expr_simple(old(self).types@, expr) ==> r is Ok,
            old(self).enum_free() && expr_plain(expr) ==> r is Ok,
        decreases expr,
    {
        let span = expr.span;
        let kind = match expr.kind {
            ExprKind::Construct { type_path, type_path_span, base, fields } => {
                if self.is_enum(type_path.as_str()) {
                    return Err(Diagnostic::new(
                        String::from_str("enum values require an Enum::Variant constructor"),
                        type_path_span,
                    ));
                }
                let enum_variant = match split_last_path(type_path.as_str()) {
                    Some((name, _)) => self.is_enum(name),
                    None => false,
                };
                if enum_variant {
                    let (t, index) = self.variant(type_path.as_str(), type_path_span)?;
                    if base.is_some() {
                        return Err(Diagnostic::new(
                            String::from_str("enum constructors do not support product update"),
                            span,
                        ));
                    }
                    let values = self.variant_fields(t, index, fields, span, type_path_span)?;
                    ExprKind::Construct {
                        type_path: self.types[t].name.clone(),
                        type_path_span,
                        base: None,
                        fields: values,
                    }
                } else {
                    if base.is_none() && fields.len() == 0 {
                        return Err(Diagnostic::new(
                            String::from_str("a product constructor requires at least one field"),
                            span,
                        ));
                    }
                    let base = match base {
                        Some(b) => Some(Box::new(self.expr(*b)?)),
                        None => None,
                    };
                    let fields = self.field_values(fields)?;
                    ExprKind::Construct { type_path, type_path_span, base, fields }
                }
            },
            ExprKind::Call { name, name_span, arguments } => {
                ExprKind::Call { name, name_span, arguments: self.exprs(arguments)? }
            },
            ExprKind::Array(values) => ExprKind::Array(self.exprs(values)?),
            ExprKind::Convert { mode, target, value, syntax } => {
                ExprKind::Convert { mode, target, value: Box::new(self.expr(*value)?), syntax }
            },
            ExprKind::Unary { op, value } => ExprKind::Unary { op, value: Box::new(self.expr(*value)?) },
            ExprKind::FieldAccess { base, field_name, field_name_span } => {
                ExprKind::FieldAccess { base: Box::new(self.expr(*base)?), field_name, field_name_span }
            },
            ExprKind::Binary { op, left, right } => {
                let left = self.expr(*left)?;
                let right = self.expr(*right)?;
                ExprKind::Binary { op, left: Box::new(left), right: Box::new(right) }
            },
            ExprKind::Logical { op, left, right } => {
                let left = self.expr(*left)?;
                let right = self.expr(*right)?;
                ExprKind::Logical { op, left: Box::new(left), right: Box::new(right) }
            },
            ExprKind::Index { base, index } => {
                let base = self.expr(*base)?;
                let index = self.expr(*index)?;
                ExprKind::Index { base: Box::new(base), index: Box::new(index) }
            },
            other => other,
        };
        Ok(Expr { kind, span })
    }

    /// The storage values of an enum constructor: the tag, then the given
    /// payload fields under their storage names, then zeros for every
    /// payload field of the other variants.
    #[verifier::loop_isolation(false)]
    #[verifier::rlimit(60)]
    fn variant_fields(
        &mut self,
        t: usize,
        index: usize,
        fields: Vec<FieldValue>,
        span: Span,
        type_path_span: Span,
    ) -> (r: Result<Vec<FieldValue>, Diagnostic>)
        requires
            t < old(self).types@.len(),
            old(self).types@[t as int].variants matches Some(vs) && index < vs@.len(),
        ensures
            r matches Ok(values) ==> values@.len() >= 1 && values@[0].name@ == tag_name() && (values@[0].value.kind matches ExprKind::Integer(
                lit,
            ) && lit.spec_digits() == decimal(index as nat)),
            r matches Ok(values) ==> forall|i: int| 1 <= i < values@.len() ==> stored_name(old(self).types@[t as int], #[trigger] values@[i].name@),
            r matches Ok(values) ==> forall|w: int, f: int| #![trigger old(self).types@[t as int].variants->Some_0@[w].fields@[f]]
                0 <= w < old(self).types@[t as int].variants->Some_0@.len() && 0 <= f < old(self).types@[t as int].variants->Some_0@[w].fields@.len()
                    ==> exists|i: int| 0 <= i < values@.len() && (#[trigger] values@[i]).name@ == payload_name(
                    old(self).types@[t as int].variants->Some_0@[w].name@,
                    old(self).types@[t as int].variants->Some_0@[w].fields@[f].name@,
                ),
            r matches Ok(values) ==> values@.len() >= fields@.len() + 1 && values@[0].generated && forall|j: int|
                0 <= j < fields@.len() ==> {
                    &&& (#[trigger] values@[j + 1]).name@ == payload_name(
                        old(self).types@[t as int].variants->Some_0@[index as int].name@,
                        fields@[j].name@,
                    )
                    &&& values@[j + 1].generated == fields@[j].generated
                    &&& values@[j + 1].name_span == fields@[j].name_span
                    &&& values@[j + 1].span == fields@[j].span
                    &&& expr_lowers(old(self).types@, fields@[j].value, values@[j + 1].value)
                },
            r matches Ok(values) ==> zeros_for(
                inactive_storage(
                    old(self).types@[t as int].variants->Some_0@,
                    index as int,
                    old(self).types@[t as int].variants->Some_0@.len() as int,
                ),
                values@.skip(fields@.len() + 1int),
            ),
            final(self).types == old(self).types,
            final(self).next_match == old(self).next_match,
            payload_given(old(self).types@[t as int], index as int, fields@) && (forall|i: int|
                0 <= i < fields@.len() ==> expr_simple(old(self).types@, #[trigger] fields@[i].value)) && inactive_scalar(
                old(self).types@[t as int],
                index as int,
            ) ==> r is Ok,
        decreases fields,
    {
        let ghost shape = self.types@[t as int];
        let ghost vs = shape.variants->Some_0@;
        let ghost owed = payload_given(shape, index as int, fields@) && (forall|i: int|
            0 <= i < fields@.len() ==> expr_simple(old(self).types@, #[trigger] fields@[i].value)) && inactive_scalar(
            shape,
            index as int,
        );
        let mut values: Vec<FieldValue> = Vec::new();
        values.push(field_value(String::from_str("$tag"), integer(index, type_path_span), type_path_span));
        let mut seen: Vec<String> = Vec::new();
        let total = fields.len();
        let ghost orig = fields@;
        let mut rest = fields;
        let mut taken: usize = 0;
        while rest.len() > 0
            invariant
                taken + rest@.len() == orig.len(),
                orig.len() == total,
                rest@ == orig.skip(taken as int),
                self.types == old(self).types,
                self.next_match == old(self).next_match,
                t < self.types@.len(),
                shape == self.types@[t as int],
                shape.variants matches Some(x) && vs == x@ && index < vs.len(),
                values@.len() >= 1 && values@[0].name@ == tag_name() && (values@[0].value.kind matches ExprKind::Integer(
                    lit,
                ) && lit.spec_digits() == decimal(index as nat)),
                values@.len() == seen@.len() + 1,
                forall|j: int| 0 <= j < seen@.len() ==> (#[trigger] values@[j + 1]).name@ == payload_name(vs[index as int].name@, seen@[j]@),
                forall|j: int| 0 <= j < seen@.len() ==> exists|f: int| 0 <= f < vs[index as int].fields@.len() && vs[index as int].fields@[f].name@ == (#[trigger] seen@[j])@,
                seen@.len() == taken,
                values@[0].generated,
                forall|j: int| 0 <= j < seen@.len() ==> {
                    &&& (#[trigger] values@[j + 1]).generated == orig[j].generated
                    &&& values@[j + 1].name_span == orig[j].name_span
                    &&& values@[j + 1].span == orig[j].span
                    &&& expr_lowers(old(self).types@, orig[j].value, values@[j + 1].value)
                },
                forall|j: int| 0 <= j < seen@.len() ==> (#[trigger] seen@[j])@ == orig[j].name@,
            decreases rest@.len(),
        {
            let field = rest.remove(0);
            assert(field == orig[taken as int]);
            assert(rest@ =~= orig.skip(taken as int + 1));
            taken = taken + 1;
            let (variant_name, declared) = match &self.types[t].variants {
                Some(vs) => {
                    let v = &vs[index];
                    let mut declared = false;
                    let mut k: usize = 0;
                    while k < v.fields.len()
                        invariant
                            k <= v.fields@.len(),
                            declared ==> exists|f: int| 0 <= f < v.fields@.len() && v.fields@[f].name@ == field.name@,
                            !declared ==> forall|f: int| 0 <= f < k ==> (#[trigger] v.fields@[f]).name@ != field.name@,
                        decreases v.fields@.len() - k,
                    {
                        if same_text(v.fields[k].name.as_str(), field.name.as_str()) {
                            declared = true;
                        }
                        k = k + 1;
                    }
                    (v.name.clone(), declared)
                },
                None => {
                    proof {
                        assert(false);
                    }
                    return Err(Diagnostic::new(String::new(), span));
                },
            };
            proof {
                if owed {
                    let declared_fields = shape.variants->Some_0@[index as int].fields@;
                    assert(orig[taken - 1] == field);
                    let f = choose|f: int| 0 <= f < declared_fields.len() && (#[trigger] declared_fields[f]).name@ == (#[trigger] orig[taken - 1]).name@;
                    assert(vs[index as int].fields@[f].name@ == field.name@);
                    assert forall|j: int| 0 <= j < seen@.len() implies (#[trigger] seen@[j])@ != field.name@ by {
                        assert(seen@[j]@ == orig[j].name@);
                    }
                    assert(expr_simple(old(self).types@, orig[taken - 1].value));
                }
            }
            if !declared {
                return Err(Diagnostic::new(joined("unknown payload field ", field.name.as_str()), field.name_span));
            }
            if contains_text(&seen, field.name.as_str()) {
                return Err(Diagnostic::new(joined("duplicate payload field ", field.name.as_str()), field.name_span));
            }
            let ghost before_values = values@;
            let ghost before_seen = seen@;
            seen.push(field.name.clone());
            proof {
                assert forall|j: int| 0 <= j < seen@.len() implies (#[trigger] seen@[j])@ == orig[j].name@ by {
                    if j < before_seen.len() {
                        assert(seen@[j] == before_seen[j]);
                    }
                }
            }
            let value = self.expr(field.value)?;
            values.push(FieldValue {
                generated: field.generated,
                name: payload(variant_name.as_str(), field.name.as_str()),
                name_span: field.name_span,
                value,
                span: field.span,
            });
            proof {
                assert(values@[0] == before_values[0]);
                assert forall|j: int| 0 <= j < seen@.len() implies {
                    &&& (#[trigger] values@[j + 1]).generated == orig[j].generated
                    &&& values@[j + 1].name_span == orig[j].name_span
                    &&& values@[j + 1].span == orig[j].span
                    &&& expr_lowers(old(self).types@, orig[j].value, values@[j + 1].value)
                } by {
                    if j < before_seen.len() {
                        assert(values@[j + 1] == before_values[j + 1]);
                    }
                }
                assert forall|j: int| 0 <= j < seen@.len() implies (#[trigger] values@[j + 1]).name@ == payload_name(
                    vs[index as int].name@,
                    seen@[j]@,
                ) by {
                    if j < before_seen.len() {
                        assert(values@[j + 1] == before_values[j + 1]);
                        assert(seen@[j] == before_seen[j]);
                    }
                }
                assert forall|j: int| 0 <= j < seen@.len() implies exists|f: int|
                    0 <= f < vs[index as int].fields@.len() && vs[index as int].fields@[f].name@ == (#[trigger] seen@[j])@ by {
                    if j < before_seen.len() {
                        assert(seen@[j] == before_seen[j]);
                    }
                }
            }
        }
        // every payload field of the chosen variant must be given
        match &self.types[t].variants {
            Some(x) => {
                let v = &x[index];
                let mut k: usize = 0;
                while k < v.fields.len()
                    invariant
                        k <= v.fields@.len(),
                        forall|f: int| 0 <= f < k ==> exists|j: int| 0 <= j < seen@.len() && (#[trigger] seen@[j])@ == (#[trigger] v.fields@[f]).name@,
                    decreases v.fields@.len() - k,
                {
                    proof {
                        if owed {
                            let declared_fields = shape.variants->Some_0@[index as int].fields@;
                            assert(declared_fields[k as int] == v.fields@[k as int]);
                            let i = choose|i: int| 0 <= i < orig.len() && (#[trigger] orig[i]).name@ == (#[trigger] declared_fields[k as int]).name@;
                            assert(seen@[i]@ == orig[i].name@);
                        }
                    }
                    if !contains_text(&seen, v.fields[k].name.as_str()) {
                        return Err(Diagnostic::new(joined("missing payload field ", v.fields[k].name.as_str()), span));
                    }
                    k = k + 1;
                }
            },
            None => {},
        }
        let ghost given = values@;
        assert forall|f: int| 0 <= f < vs[index as int].fields@.len() implies exists|i: int|
            0 <= i < given.len() && (#[trigger] given[i]).name@ == payload_name(vs[index as int].name@, (#[trigger] vs[index as int].fields@[f]).name@) by {
            let j = choose|j: int| 0 <= j < seen@.len() && (#[trigger] seen@[j])@ == vs[index as int].fields@[f].name@;
            assert(given[j + 1].name@ == payload_name(vs[index as int].name@, seen@[j]@));
        }
        assert forall|i: int| 1 <= i < given.len() implies stored_name(shape, #[trigger] given[i].name@) by {
            let j = i - 1;
            assert(given[j + 1].name@ == payload_name(vs[index as int].name@, seen@[j]@));
            let f = choose|f: int| 0 <= f < vs[index as int].fields@.len() && vs[index as int].fields@[f].name@ == (#[trigger] seen@[j])@;
            assert(vs[index as int].fields@[f].name@ == seen@[j]@);
        }
        // inactive storage holds zeros, without defaults or user code
        proof {
            assert forall|i: int| 1 <= i < values@.len() implies stored_name(self.types@[t as int], #[trigger] values@[i].name@) by {
                assert(given[i] == values@[i]);
            }
        }
        self.inactive_zeros(t, index, &mut values, span)?;
        proof {
            assert(given.len() == orig.len() + 1);
            assert forall|w: int, f: int| #![trigger vs[w].fields@[f]]
                0 <= w < vs.len() && 0 <= f < vs[w].fields@.len() implies exists|i: int|
                    0 <= i < values@.len() && (#[trigger] values@[i]).name@ == payload_name(vs[w].name@, vs[w].fields@[f].name@) by {
                if w == index {
                    let i = choose|i: int| 0 <= i < given.len() && (#[trigger] given[i]).name@ == payload_name(vs[w].name@, vs[w].fields@[f].name@);
                    assert(values@[i] == given[i]);
                }
            }
            assert(values@[0] == given[0]);
            assert forall|j: int| 0 <= j < orig.len() implies {
                &&& (#[trigger] values@[j + 1]).name@ == payload_name(vs[index as int].name@, orig[j].name@)
                &&& values@[j + 1].generated == orig[j].generated
                &&& values@[j + 1].name_span == orig[j].name_span
                &&& values@[j + 1].span == orig[j].span
                &&& expr_lowers(old(self).types@, orig[j].value, values@[j + 1].value)
            } by {
                assert(values@[j + 1] == given[j + 1]);
                assert(given[j + 1].name@ == payload_name(vs[index as int].name@, seen@[j]@));
                assert(seen@[j]@ == orig[j].name@);
            }
        }
        Ok(values)
    }

    /// Appends, for every payload field of the variants of enum `t` other
    /// than `index`, the field's zero value under its storage name; no
    /// default and no user code runs.
    #[verifier::loop_isolation(false)]
    #[verifier::rlimit(40)]
    fn inactive_zeros(&self, t: usize, index: usize, values: &mut Vec<FieldValue>, span: Span) -> (r: Result<(), Diagnostic>)
        requires
            t < self.types@.len(),
            self.types@[t as int].variants matches Some(vs) && index < vs@.len(),
            forall|i: int| 1 <= i < old(values)@.len() ==> stored_name(self.types@[t as int], #[trigger] old(values)@[i].name@),
        ensures
            r is Ok ==> old(values)@.len() <= final(values)@.len(),
            r is Ok ==> forall|i: int| 0 <= i < old(values)@.len() ==> #[trigger] final(values)@[i] == old(values)@[i],
            r is Ok ==> zeros_for(
                inactive_storage(
                    self.types@[t as int].variants->Some_0@,
                    index as int,
                    self.types@[t as int].variants->Some_0@.len() as int,
                ),
                final(values)@.skip(old(values)@.len() as int),
            ),
            r is Ok ==> forall|i: int|
                1 <= i < final(values)@.len() ==> stored_name(self.types@[t as int], #[trigger] final(values)@[i].name@),
            r is Ok ==> forall|w: int, f: int| #![trigger self.types@[t as int].variants->Some_0@[w].fields@[f]]
                0 <= w < self.types@[t as int].variants->Some_0@.len() && w != index && 0 <= f
                    < self.types@[t as int].variants->Some_0@[w].fields@.len() ==> exists|i: int|
                    0 <= i < final(values)@.len() && (#[trigger] final(values)@[i]).name@ == payload_name(
                        self.types@[t as int].variants->Some_0@[w].name@,
                        self.types@[t as int].variants->Some_0@[w].fields@[f].name@,
                    ),
            inactive_scalar(self.types@[t as int], index as int) ==> r is Ok,
    {
        let ghost shape = self.types@[t as int];
        let ghost vs = shape.variants->Some_0@;
        let ghost owed = inactive_scalar(shape, index as int);
        let variant_count = match &self.types[t].variants {
            Some(vs) => vs.len(),
            None => 0,
        };
        let mut budget: usize = 100000;
        let mut other: usize = 0;
        while other < variant_count
            invariant
                t < self.types@.len(),
                shape == self.types@[t as int],
                shape.variants matches Some(x) && vs == x@ && index < vs.len(),
                variant_count == vs.len(),
                other <= variant_count,
                old(values)@.len() <= values@.len(),
                forall|i: int| 0 <= i < old(values)@.len() ==> #[trigger] values@[i] == old(values)@[i],
                forall|i: int| 1 <= i < values@.len() ==> stored_name(shape, #[trigger] values@[i].name@),
                forall|w: int, f: int| #![trigger vs[w].fields@[f]]
                    0 <= w < other && w != index && 0 <= f < vs[w].fields@.len() ==> exists|i: int|
                        0 <= i < values@.len() && (#[trigger] values@[i]).name@ == payload_name(vs[w].name@, vs[w].fields@[f].name@),
                owed ==> budget as int >= 100000 - shape_offset(vs, other as int),
                zeros_for(inactive_storage(vs, index as int, other as int), values@.skip(old(values)@.len() as int)),
            decreases variant_count - other,
        {
            if other != index {
                let count = match &self.types[t].variants {
                    Some(vs) => if other < vs.len() { vs[other].fields.len() } else { 0 },
                    None => 0,
                };
                let mut k: usize = 0;
                while k < count
                    invariant
                        t < self.types@.len(),
                        shape == self.types@[t as int],
                        shape.variants matches Some(x) && vs == x@ && index < vs.len(),
                        other < vs.len(),
                        count == vs[other as int].fields@.len(),
                        k <= count,
                        old(values)@.len() <= values@.len(),
                        forall|i: int| 0 <= i < old(values)@.len() ==> #[trigger] values@[i] == old(values)@[i],
                        forall|i: int| 1 <= i < values@.len() ==> stored_name(shape, #[trigger] values@[i].name@),
                        forall|w: int, f: int| #![trigger vs[w].fields@[f]]
                            0 <= w < other && w != index && 0 <= f < vs[w].fields@.len() ==> exists|i: int|
                                0 <= i < values@.len() && (#[trigger] values@[i]).name@ == payload_name(vs[w].name@, vs[w].fields@[f].name@),
                        forall|f: int| #![trigger vs[other as int].fields@[f]]
                            0 <= f < k ==> exists|i: int|
                                0 <= i < values@.len() && (#[trigger] values@[i]).name@ == payload_name(vs[other as int].name@, vs[other as int].fields@[f].name@),
                        owed ==> budget as int >= 100000 - (shape_offset(vs, other as int) + k),
                        other != index,
                        zeros_for(
                            inactive_storage(vs, index as int, other as int) + variant_storage(vs[other as int]).take(k as int),
                            values@.skip(old(values)@.len() as int),
                        ),
                    decreases count - k,
                {
                    let ghost before = values@;
                    proof {
                        if owed {
                            lemma_shape_offset_monotone(vs, other as int + 1, vs.len() as int);
                            assert(shape_offset(vs, other as int + 1) == shape_offset(vs, other as int) + vs[other as int].fields@.len());
                            let fk = vs[other as int].fields@[k as int];
                            assert(fk.type_ref.kind matches TypeRefKind::Named(n) && builtin_named(n@) is Some);
                        }
                    }
                    let zeroed = match &self.types[t].variants {
                        Some(vs) => {
                            if other < vs.len() && k < vs[other].fields.len() {
                                let mut path: Vec<String> = Vec::new();
                                let (value, rest_budget) = self.zero(&vs[other].fields[k].type_ref, span, &mut path, budget)?;
                                budget = rest_budget;
                                Some(field_value(payload(vs[other].name.as_str(), vs[other].fields[k].name.as_str()), value, span))
                            } else {
                                None
                            }
                        },
                        None => None,
                    };
                    match zeroed {
                        Some(f) => values.push(f),
                        None => {},
                    }
                    proof {
                        let last = values@.len() - 1;
                        assert(values@[last].name@ == payload_name(vs[other as int].name@, vs[other as int].fields@[k as int].name@));
                        let st = inactive_storage(vs, index as int, other as int) + variant_storage(vs[other as int]).take(k as int);
                        let st2 = inactive_storage(vs, index as int, other as int) + variant_storage(vs[other as int]).take(k + 1);
                        assert(st2 =~= st.push(variant_storage(vs[other as int])[k as int]));
                        assert(values@.skip(old(values)@.len() as int) =~= before.skip(old(values)@.len() as int).push(values@[last]));
                        assert(zeros_for(st2, values@.skip(old(values)@.len() as int)));
                        assert forall|i: int| 0 <= i < old(values)@.len() implies #[trigger] values@[i] == old(values)@[i] by {
                            assert(values@[i] == before[i]);
                        }
                        assert forall|i: int| 1 <= i < values@.len() implies stored_name(shape, #[trigger] values@[i].name@) by {
                            if i < last {
                                assert(values@[i] == before[i]);
                            } else {
                                assert(shape.variants->Some_0@[other as int].fields@[k as int].name@ == vs[other as int].fields@[k as int].name@);
                            }
                        }
                        assert forall|w: int, f: int| #![trigger vs[w].fields@[f]]
                            0 <= w < other && w != index && 0 <= f < vs[w].fields@.len() implies exists|i: int|
                                0 <= i < values@.len() && (#[trigger] values@[i]).name@ == payload_name(vs[w].name@, vs[w].fields@[f].name@) by {
                            let i = choose|i: int| 0 <= i < before.len() && (#[trigger] before[i]).name@ == payload_name(vs[w].name@, vs[w].fields@[f].name@);
                            assert(values@[i] == before[i]);
                        }
                        assert forall|f: int| #![trigger vs[other as int].fields@[f]]
                            0 <= f < k + 1 implies exists|i: int|
                                0 <= i < values@.len() && (#[trigger] values@[i]).name@ == payload_name(vs[other as int].name@, vs[other as int].fields@[f].name@) by {
                            if f < k {
                                let i = choose|i: int| 0 <= i < before.len() && (#[trigger] before[i]).name@ == payload_name(vs[other as int].name@, vs[other as int].fields@[f].name@);
                                assert(values@[i] == before[i]);
                            } else {
                                assert(values@[last].name@ == payload_name(vs[other as int].name@, vs[other as int].fields@[f].name@));
                            }
                        }
                    }
                    k = k + 1;
                }
                proof {
                    assert(shape_offset(vs, other as int + 1) == shape_offset(vs, other as int) + vs[other as int].fields@.len());
                    assert(variant_storage(vs[other as int]).take(count as int) =~= variant_storage(vs[other as int]));
                }
            } else {
                proof {
                    lemma_shape_offset_monotone(vs, other as int, other as int + 1);
                }
            }
            other = other + 1;
        }
        Ok(())
    }

    /// Lowers a statement list, in order.
    #[verifier::loop_isolation(false)]
    fn statements(&mut self, body: Vec<Stmt>) -> (r: Result<Vec<Stmt>, Diagnostic>)
        ensures
            r matches Ok(out) ==> all_match_free(out@),
            r matches Ok(out) ==> stmts_lower(old(self).types@, body@, out@),
            final(self).types == old(self).types,
            old(self).enum_free() && (forall|i: int| 0 <= i < body@.len() ==> stmt_plain(#[trigger] body@[i])) ==> r is Ok,
            (forall|i: int| 0 <= i < body@.len() ==> stmt_lowerable(old(self).types@, #[trigger] body@[i])) ==> r is Ok,
        decreases body,
    {
        let ghost orig = body@;
        let mut rest = body;
        let mut out: Vec<Stmt> = Vec::new();
        while rest.len() > 0
            invariant
                out@.len() + rest@.len() == orig.len(),
                rest@ == orig.skip(out@.len() as int),
                self.types == old(self).types,
                all_match_free(out@),
                stmts_lower(old(self).types@, orig.take(out@.len() as int), out@),
            decreases rest@.len(),
        {
            let ghost k = out@.len() as int;
            let item = rest.remove(0);
            assert(item == orig[k]);
            assert(rest@ =~= orig.skip(k + 1));
            let lowered = self.statement(item)?;
            let ghost before = out@;
            out.push(lowered);
            proof {
                assert forall|i: int| 0 <= i < k + 1 implies stmt_lowers(old(self).types@, #[trigger] orig.take(k + 1)[i], out@[i]) by {
                    if i < k {
                        assert(orig.take(k)[i] == orig[i]);
                        assert(out@[i] == before[i]);
                    }
                }
            }
        }
        assert(orig.take(orig.len() as int) =~= orig);
        Ok(out)
    }

    /// Lowers one statement; a `match` becomes a block that binds the
    /// subject once and tests its tag.
    #[verifier::loop_isolation(false)]
    fn statement(&mut self, statement: Stmt) -> (r: Result<Stmt, Diagnostic>)
        ensures
            r matches Ok(s) ==> match_free(s) && s.span == statement.span,
            r matches Ok(s) ==> stmt_lowers(old(self).types@, statement, s),
            final(self).types == old(self).types,
            old(self).enum_free() && stmt_plain(statement) ==> r is Ok,
            stmt_lowerable(old(self).types@, statement) ==> r is Ok,
            partial_match(old(self).types@, statement) ==> (r matches Err(e) && non_exhaustive_message(e.message@)),
            forall|t: int, indices: Seq<int>|
                #[trigger] match_arms_at(old(self).types@, match_arms(statement), t, indices) && partial_match(
                    old(self).types@,
                    statement,
                ) && match_arms(statement).len() < old(self).types@[t].variants->Some_0@.len() ==> (r matches Err(e)
                    && e.message@ == "non-exhaustive match; missing variants: "@ + comma_joined(
                    uncovered_names(
                        old(self).types@[t].variants->Some_0@,
                        indices,
                        old(self).types@[t].variants->Some_0@.len() as int,
                    ),
                )),
            statement.kind is Match ==> (r matches Ok(s) ==> s.kind matches StmtKind::Block(block) && (
                block@[0].kind matches StmtKind::Binding { name, .. } && name@ == match_capture(
                    old(self).next_match as nat,
                ))),
            armless_match(old(self).types@, statement) ==> (r matches Err(e) && e.message@
                == "match requires every enum variant"@),
        decreases statement,
    {
        let span = statement.span;
        let kind = match statement.kind {
            StmtKind::Match { value, arms } => {
                let value = self.expr(value)?;
                let ghost given = arms@;
                let r = self.lower_match(value, arms, span);
                proof {
                    if partial_match(old(self).types@, statement) {
                        let (t, ind) = choose|t: int, indices: Seq<int>|
                            #[trigger] match_arms_at(old(self).types@, given, t, indices) && given.len()
                                < old(self).types@[t].variants->Some_0@.len();
                        assert(match_arms_at(old(self).types@, given, t, ind));
                        let names = comma_joined(
                            uncovered_names(
                                old(self).types@[t].variants->Some_0@,
                                ind,
                                old(self).types@[t].variants->Some_0@.len() as int,
                            ),
                        );
                        assert(r->Err_0.message@ == "non-exhaustive match; missing variants: "@ + names);
                    }
                }
                return r;
            },
            StmtKind::Block(body) => StmtKind::Block(self.statements(body)?),
            StmtKind::Binding { mutable, name, type_spec, value } => {
                StmtKind::Binding { mutable, name, type_spec, value: self.expr(value)? }
            },
            StmtKind::Print { value } => StmtKind::Print { value: self.expr(value)? },
            StmtKind::Call { value } => StmtKind::Call { value: self.expr(value)? },
            StmtKind::Assignment { target, value } => {
                let projections = self.projections(target.projections)?;
                let value = self.expr(value)?;
                StmtKind::Assignment {
                    target: AssignmentTarget {
                        name: target.name,
                        name_span: target.name_span,
                        projections,
                        span: target.span,
                    },
                    value,
                }
            },
            StmtKind::Return { value } => StmtKind::Return {
                value: match value {
                    Some(v) => Some(self.expr(v)?),
                    None => None,
                },
            },
            StmtKind::If { condition, then_body, else_body } => {
                let condition = self.expr(condition)?;
                let then_body = self.statements(then_body)?;
                let else_body = self.statements(else_body)?;
                StmtKind::If { condition, then_body, else_body }
            },
            StmtKind::ForEach { index, element, value, body, header_span } => {
                let value = self.expr(value)?;
                let body = self.statements(body)?;
                StmtKind::ForEach { index, element, value, body, header_span }
            },
            StmtKind::While { condition, body } => {
                let condition = self.expr(condition)?;
                let body = self.statements(body)?;
                StmtKind::While { condition, body }
            },
            StmtKind::For { initializer, condition, update, body } => {
                let initializer = self.statement(*initializer)?;
                let condition = self.expr(condition)?;
                let update = self.statement(*update)?;
                let body = self.statements(body)?;
                StmtKind::For {
                    initializer: Box::new(initializer),
                    condition,
                    update: Box::new(update),
                    body,
                }
            },
            StmtKind::Break => StmtKind::Break,
            StmtKind::Continue => StmtKind::Continue,
        };
        let r = Stmt { kind, span };
        assert(match_free(r));
        Ok(r)
    }

    /// Lowers the index expressions of an assignment target.
    #[verifier::loop_isolation(false)]
    fn projections(&mut self, projections: Vec<AssignmentProjection>) -> (r: Result<
        Vec<AssignmentProjection>,
        Diagnostic,
    >)
        ensures
            final(self).types == old(self).types,
            r matches Ok(out) ==> out@.len() == projections@.len() && forall|i: int|
                0 <= i < projections@.len() ==> projection_lowers(old(self).types@, #[trigger] projections@[i], out@[i]),
            old(self).enum_free() && (forall|i: int| 0 <= i < projections@.len() ==> expr_plain((#[trigger] projections@[i])->index)) ==> r is Ok,
            (forall|i: int| 0 <= i < projections@.len() ==> expr_simple(old(self).types@, (#[trigger] projections@[i])->index)) ==> r is Ok,
        decreases projections,
    {
        let ghost orig = projections@;
        let mut rest = projections;
        let mut out: Vec<AssignmentProjection> = Vec::new();
        while rest.len() > 0
            invariant
                out@.len() + rest@.len() == orig.len(),
                rest@ == orig.skip(out@.len() as int),
                self.types == old(self).types,
                self.next_match == old(self).next_match,
                forall|i: int| 0 <= i < out@.len() ==> projection_lowers(old(self).types@, #[trigger] orig[i], out@[i]),
            decreases rest@.len(),
        {
            let ghost k = out@.len() as int;
            let item = rest.remove(0);
            assert(item == orig[k]);
            assert(rest@ =~= orig.skip(k + 1));
            let ghost before = out@;
            match item {
                AssignmentProjection::Index { index, span } => {
                    let index = self.expr(index)?;
                    out.push(AssignmentProjection::Index { index, span });
                },
            }
            proof {
                assert forall|i: int| 0 <= i < out@.len() implies projection_lowers(old(self).types@, #[trigger] orig[i], out@[i]) by {
                    if i < k {
                        assert(out@[i] == before[i]);
                    }
                }
            }
        }
        Ok(out)
    }

    /// The bindings that open the branch of an arm for variant `index` of
    /// the enum at `t`: each pattern field not bound to `_` is bound to its
    /// payload storage in `capture`. Every payload field must be named once.
    #[verifier::loop_isolation(false)]
    fn pattern_bindings(
        &self,
        t: usize,
        index: usize,
        capture: &String,
        given: &Vec<PatternField>,
        variant_span: Span,
    ) -> (r: Result<Vec<Stmt>, Diagnostic>)
        requires
            t < self.types@.len(),
            self.types@[t as int].variants matches Some(vs) && index < vs@.len(),
        ensures
            r matches Ok(body) ==> all_match_free(body@),
            pattern_complete(self.types@[t as int].variants->Some_0@[index as int], given@) ==> r is Ok,
    {
        let ghost owed = pattern_complete(self.types@[t as int].variants->Some_0@[index as int], given@);
        let mut body: Vec<Stmt> = Vec::new();
        let mut fields: Vec<String> = Vec::new();
        let mut bindings: Vec<String> = Vec::new();
        let mut f: usize = 0;
        while f < given.len()
            invariant
                f <= given@.len(),
                all_match_free(body@),
                t < self.types@.len(),
                fields@.len() == f,
                forall|j: int| 0 <= j < f ==> (#[trigger] fields@[j])@ == given@[j].name@,
                forall|m: int| 0 <= m < bindings@.len() ==> earlier_binding(given@, f as int, (#[trigger] bindings@[m])@),
            decreases given@.len() - f,
        {
            let field = &given[f];
            let (variant_name, declared) = match &self.types[t].variants {
                Some(vs) => {
                    if index < vs.len() {
                        let v = &vs[index];
                        let mut found: Option<TypeRef> = None;
                        let mut k: usize = 0;
                        while k < v.fields.len()
                            invariant
                                k <= v.fields@.len(),
                                found is None ==> forall|q: int| 0 <= q < k ==> (#[trigger] v.fields@[q]).name@ != field.name@,
                            decreases v.fields@.len() - k,
                        {
                            if found.is_none() && same_text(v.fields[k].name.as_str(), field.name.as_str()) {
                                found = Some(copy_type_ref(&v.fields[k].type_ref));
                            }
                            k = k + 1;
                        }
                        proof {
                            if owed {
                                let vshape = self.types@[t as int].variants->Some_0@[index as int];
                                assert(*v == vshape);
                                assert(given@[f as int] == *field);
                                let q = choose|q: int| 0 <= q < vshape.fields@.len() && (#[trigger] vshape.fields@[q]).name@ == (#[trigger] given@[f as int]).name@;
                                assert(v.fields@[q].name@ == field.name@);
                            }
                        }
                        (v.name.clone(), found)
                    } else {
                        (String::new(), None)
                    }
                },
                None => (String::new(), None),
            };
            let declared = match declared {
                Some(ty) => ty,
                None => return Err(Diagnostic::new(joined("unknown payload field ", field.name.as_str()), field.name_span)),
            };
            proof {
                if owed {
                    assert forall|j: int| 0 <= j < fields@.len() implies (#[trigger] fields@[j])@ != field.name@ by {
                        assert(fields@[j]@ == given@[j].name@);
                        assert(given@[j].name@ != given@[f as int].name@);
                    }
                }
            }
            if contains_text(&fields, field.name.as_str()) {
                return Err(Diagnostic::new(joined("duplicate pattern field ", field.name.as_str()), field.name_span));
            }
            let ghost before_fields = fields@;
            fields.push(field.name.clone());
            proof {
                assert forall|j: int| 0 <= j < f + 1 implies (#[trigger] fields@[j])@ == given@[j].name@ by {
                    if j < f {
                        assert(fields@[j] == before_fields[j]);
                    }
                }
            }
            let ghost before_bindings = bindings@;
            if !same_text(field.binding.as_str(), "_") {
                proof {
                    if owed {
                        assert forall|m: int| 0 <= m < bindings@.len() implies (#[trigger] bindings@[m])@ != field.binding@ by {
                            assert(earlier_binding(given@, f as int, bindings@[m]@));
                            let j = choose|j: int| 0 <= j < f && given@[j].binding@ == bindings@[m]@ && given@[j].binding@ != "_"@;
                            assert(given@[j].binding@ != given@[f as int].binding@);
                        }
                    }
                }
                if contains_text(&bindings, field.binding.as_str()) {
                    return Err(Diagnostic::new(joined("duplicate pattern binding ", field.binding.as_str()), field.binding_span));
                }
                bindings.push(field.binding.clone());
                proof {
                    assert forall|m: int| 0 <= m < bindings@.len() implies earlier_binding(given@, f + 1, (#[trigger] bindings@[m])@) by {
                        if m < before_bindings.len() {
                            assert(bindings@[m] == before_bindings[m]);
                            assert(earlier_binding(given@, f as int, before_bindings[m]@));
                            let j = choose|j: int| 0 <= j < f && given@[j].binding@ == before_bindings[m]@ && given@[j].binding@ != "_"@;
                            assert(given@[j].binding@ == bindings@[m]@);
                        } else {
                            assert(bindings@[m]@ == given@[f as int].binding@);
                            assert(given@[f as int].binding@ != "_"@);
                        }
                    }
                }
                let storage = payload(variant_name.as_str(), field.name.as_str());
                body.push(Stmt {
                    kind: StmtKind::Binding {
                        mutable: false,
                        name: field.binding.clone(),
                        type_spec: TypeSpec::Explicit(declared),
                        value: access(capture.as_str(), storage.as_str(), field.binding_span),
                    },
                    span: field.binding_span,
                });
            } else {
                proof {
                    assert forall|m: int| 0 <= m < bindings@.len() implies earlier_binding(given@, f + 1, (#[trigger] bindings@[m])@) by {
                        assert(earlier_binding(given@, f as int, bindings@[m]@));
                        let j = choose|j: int| 0 <= j < f && given@[j].binding@ == bindings@[m]@ && given@[j].binding@ != "_"@;
                        assert(given@[j].binding@ == bindings@[m]@);
                    }
                }
            }
            f = f + 1;
        }
        let missing = match &self.types[t].variants {
            Some(vs) => {
                if index < vs.len() {
                    let v = &vs[index];
                    let mut missing: Option<String> = None;
                    let mut k: usize = 0;
                    while k < v.fields.len()
                        invariant
                            k <= v.fields@.len(),
                            owed ==> missing is None,
                        decreases v.fields@.len() - k,
                    {
                        proof {
                            if owed {
                                let vshape = self.types@[t as int].variants->Some_0@[index as int];
                                assert(*v == vshape);
                                let i = choose|i: int| 0 <= i < given@.len() && (#[trigger] given@[i]).name@ == (#[trigger] vshape.fields@[k as int]).name@;
                                assert(fields@[i]@ == given@[i].name@);
                            }
                        }
                        if missing.is_none() && !contains_text(&fields, v.fields[k].name.as_str()) {
                            missing = Some(v.fields[k].name.clone());
                        }
                        k = k + 1;
                    }
                    missing
                } else {
                    None
                }
            },
            None => None,
        };
        match missing {
            Some(name) => {
                let mut message = joined("missing pattern field ", name.as_str());
                message.append("; use _ to discard its value");
                return Err(Diagnostic::new(message, variant_span));
            },
            None => {},
        }
        Ok(body)
    }

    /// A `match` over an enum value: the subject is bound once to a fresh
    /// `$match<n>` name, and the arms become a chain of tests of its tag;
    /// each arm first binds its pattern fields from the payload storage.
    /// Every variant needs exactly one arm.
    #[verifier::loop_isolation(false)]
    fn lower_match(&mut self, value: Expr, arms: Vec<MatchArm>, span: Span) -> (r: Result<
        Stmt,
        Diagnostic,
    >)
        ensures
            r matches Ok(s) ==> match_free(s) && s.span == span,
            r matches Ok(s) ==> s.kind matches StmtKind::Block(block) && (block@.len() == 2 && (block@[0].kind matches StmtKind::Binding {
                value: v,
                ..
            } && v == value)),
            r matches Ok(s) ==> s.kind matches StmtKind::Block(block) && match_block(old(self).types@, arms@, block@),
            r matches Ok(s) ==> s.kind matches StmtKind::Block(block) && (block@[0].kind matches StmtKind::Binding {
                name,
                ..
            } && name@ == match_capture(old(self).next_match as nat)),
            final(self).types == old(self).types,
            match_lowerable(old(self).types@, arms@) ==> r is Ok,
            arms@.len() == 0 ==> (r matches Err(e) && e.message@ == "match requires every enum variant"@ && e.span
                == Some(span)),
            forall|t: int, indices: Seq<int>|
                #[trigger] match_arms_at(old(self).types@, arms@, t, indices) && arm_bodies_lowerable(old(self).types@, arms@)
                    && arms@.len() < old(self).types@[t].variants->Some_0@.len() ==> (r matches Err(e) && e.message@
                    == "non-exhaustive match; missing variants: "@ + comma_joined(
                    uncovered_names(
                        old(self).types@[t].variants->Some_0@,
                        indices,
                        old(self).types@[t].variants->Some_0@.len() as int,
                    ),
                ) && e.span == Some(span)),
        decreases arms,
    {
        let ghost owed = (exists|a: int, b: Seq<int>| #[trigger] match_arms_at(self.types@, arms@, a, b))
            && arm_bodies_lowerable(self.types@, arms@);
        let ghost mut tw: int = 0;
        let ghost mut ind: Seq<int> = Seq::empty();
        proof {
            if owed {
                let (a, b) = choose|a: int, b: Seq<int>| match_arms_at(self.types@, arms@, a, b);
                tw = a;
                ind = b;
                assert forall|t2: int, ind2: Seq<int>| #[trigger] match_arms_at(self.types@, arms@, t2, ind2)
                    implies t2 == tw && ind2 == ind by {
                    assert forall|i: int| 0 <= i < arms@.len() implies ind2[i] == ind[i] by {
                        lemma_resolves_unique(self.types@, arms@[i].variant@, t2, ind2[i], tw, ind[i]);
                    }
                    lemma_resolves_unique(self.types@, arms@[0].variant@, t2, ind2[0], tw, ind[0]);
                    assert(ind2 =~= ind);
                }
            }
        }
        if arms.len() == 0 {
            return Err(Diagnostic::new(String::from_str("match requires every enum variant"), span));
        }
        proof {
            if owed {
                assert(resolves_variant(self.types@, arms@[0].variant@, tw, ind[0]));
            }
        }
        let first = self.variant(arms[0].variant.as_str(), arms[0].variant_span)?;
        let t = first.0;
        proof {
            if owed {
                lemma_resolves_unique(self.types@, arms@[0].variant@, t as int, first.1 as int, tw, ind[0]);
            }
        }
        let variant_count = match &self.types[t].variants {
            Some(vs) => vs.len(),
            None => 0,
        };
        assert(self.types@[t as int].variants matches Some(vs) && variant_count == vs@.len());
        let mut capture = String::from_str("$match");
        capture.append(decimal_text(self.next_match as u64).as_str());
        self.next_match = self.next_match.wrapping_add(1);
        let mut seen: Vec<usize> = Vec::new();
        let mut branches: Vec<(usize, Vec<Stmt>, Span)> = Vec::new();
        let total = arms.len();
        let ghost orig = arms@;
        let mut rest = arms;
        let mut taken: usize = 0;
        while rest.len() > 0
            invariant
                taken + rest@.len() == orig.len(),
                orig.len() == total,
                rest@ == orig.skip(taken as int),
                self.types == old(self).types,
                t < self.types@.len(),
                seen@.len() == branches@.len(),
                seen@.len() == taken,
                forall|b: int| 0 <= b < branches@.len() ==> (#[trigger] branches@[b]).0 == seen@[b],
                forall|b: int| 0 <= b < seen@.len() ==> names_variant(self.types@[t as int], #[trigger] seen@[b], orig[b].variant@),
                forall|b: int| 0 <= b < branches@.len() ==> all_match_free((#[trigger] branches@[b]).1@),
                forall|b: int| 0 <= b < seen@.len() ==> (#[trigger] seen@[b]) < variant_count,
                forall|a: int, b: int| 0 <= a < b < seen@.len() ==> seen@[a] != seen@[b],
                self.types@[t as int].variants matches Some(vs) && variant_count == vs@.len(),
                owed ==> t as int == tw,
                owed ==> forall|b: int| 0 <= b < seen@.len() ==> #[trigger] seen@[b] as int == ind[b],
            decreases rest@.len(),
        {
            let arm = rest.remove(0);
            assert(arm == orig[taken as int]);
            assert(rest@ =~= orig.skip(taken as int + 1));
            taken = taken + 1;
            proof {
                if owed {
                    assert(resolves_variant(self.types@, orig[taken - 1].variant@, tw, ind[taken - 1]));
                }
            }
            let (arm_type, index) = self.variant(arm.variant.as_str(), arm.variant_span)?;
            proof {
                if owed {
                    lemma_resolves_unique(self.types@, orig[taken - 1].variant@, arm_type as int, index as int, tw, ind[taken - 1]);
                }
            }
            // type names are unique in the table, so the same enum is the same entry
            if arm_type != t {
                return Err(Diagnostic::new(String::from_str("all match arms must use the same enum"), arm.variant_span));
            }
            let mut repeated = false;
            let mut a: usize = 0;
            while a < seen.len()
                invariant
                    a <= seen@.len(),
                    !repeated ==> forall|b: int| 0 <= b < a ==> seen@[b] != index,
                    owed ==> !repeated,
                decreases seen@.len() - a,
            {
                proof {
                    if owed {
                        assert(seen@[a as int] as int == ind[a as int]);
                        assert(ind[a as int] != ind[taken - 1]);
                    }
                }
                if seen[a] == index {
                    repeated = true;
                }
                a = a + 1;
            }
            if repeated {
                return Err(Diagnostic::new(joined("duplicate match arm ", arm.variant.as_str()), arm.variant_span));
            }
            proof {
                if owed {
                    assert(pattern_complete(self.types@[tw].variants->Some_0@[ind[taken - 1]], orig[taken - 1].fields@));
                    assert forall|k: int| 0 <= k < arm.body@.len() implies stmt_lowerable(self.types@, #[trigger] arm.body@[k]) by {
                        assert(orig[taken - 1].body@[k] == arm.body@[k]);
                    }
                }
            }
            let mut body = self.pattern_bindings(arm_type, index, &capture, &arm.fields, arm.variant_span)?;
            let mut lowered = self.statements(arm.body)?;
            let ghost prelude = body@;
            let ghost added = lowered@;
            body.append(&mut lowered);
            assert forall|i: int| 0 <= i < body@.len() implies match_free(#[trigger] body@[i]) by {
                if i >= prelude.len() {
                    assert(body@[i] == added[i - prelude.len()]);
                }
            }
            let ghost before_seen = seen@;
            seen.push(index);
            branches.push((index, body, arm.variant_span));
            proof {
                if owed {
                    assert forall|b: int| 0 <= b < seen@.len() implies #[trigger] seen@[b] as int == ind[b] by {
                        if b < before_seen.len() {
                            assert(seen@[b] == before_seen[b]);
                        }
                    }
                }
            }
        }
        if seen.len() != variant_count {
            let ghost vs = self.types@[t as int].variants->Some_0@;
            let mut missing = String::new();
            let mut first = true;
            let mut k: usize = 0;
            while k < variant_count
                invariant
                    t < self.types@.len(),
                    k <= variant_count,
                    owed ==> missing@ == comma_joined(uncovered_names(vs, ind, k as int)),
                    owed ==> (first <==> uncovered_names(vs, ind, k as int).len() == 0),
                decreases variant_count - k,
            {
                let mut covered = false;
                let mut a: usize = 0;
                while a < seen.len()
                    invariant
                        a <= seen@.len(),
                        covered <==> exists|b: int| 0 <= b < a && seen@[b] == k,
                    decreases seen@.len() - a,
                {
                    if seen[a] == k {
                        covered = true;
                    }
                    a = a + 1;
                }
                let ghost before = missing@;
                proof {
                    if owed {
                        if covered {
                            let b = choose|b: int| 0 <= b < seen@.len() && seen@[b] == k;
                            assert(ind[b] == k as int);
                            assert(ind.contains(k as int));
                        } else {
                            assert forall|b: int| 0 <= b < ind.len() implies ind[b] != k as int by {
                                assert(seen@[b] as int == ind[b]);
                            }
                            assert(!ind.contains(k as int));
                        }
                        let prev = uncovered_names(vs, ind, k as int);
                        if !covered {
                            assert(uncovered_names(vs, ind, k + 1) == prev.push(vs[k as int].name@));
                            assert(prev.push(vs[k as int].name@).drop_last() =~= prev);
                        }
                    }
                }
                if !covered {
                    match &self.types[t].variants {
                        Some(vs) => {
                            if k < vs.len() {
                                if !first {
                                    missing.append(", ");
                                }
                                missing.append(vs[k].name.as_str());
                                first = false;
                            }
                        },
                        None => {},
                    }
                }
                k = k + 1;
            }
            return Err(Diagnostic::new(joined("non-exhaustive match; missing variants: ", missing.as_str()), span));
        }
        proof {
            if owed {
                assert(seen@.len() == orig.len());
            }
        }
        let (_, last, last_span) = match branches.pop() {
            Some(b) => b,
            None => {
                return Err(Diagnostic::new(String::from_str("match requires every enum variant"), span));
            },
        };
        let mut tail: Vec<Stmt> = Vec::new();
        tail.push(Stmt { kind: StmtKind::Block(last), span: last_span });
        assert(seen@.subrange(branches@.len() as int, seen@.len() as int).len() == 1);
        while branches.len() > 0
            invariant
                forall|b: int| 0 <= b < branches@.len() ==> all_match_free((#[trigger] branches@[b]).1@),
                all_match_free(tail@),
                branches@.len() < seen@.len(),
                forall|b: int| 0 <= b < branches@.len() ==> (#[trigger] branches@[b]).0 == seen@[b],
                tail@.len() == 1,
                tag_chain(tail@[0], capture@, seen@.subrange(branches@.len() as int, seen@.len() as int)),
            decreases branches@.len(),
        {
            let ghost from = branches@.len() - 1;
            assert(branches@[from].0 == seen@[from]);
            let (index, body, arm_span) = match branches.pop() {
                Some(b) => b,
                None => break,
            };
            let condition = Expr {
                kind: ExprKind::Binary {
                    op: BinaryOp::Equal,
                    left: Box::new(access(capture.as_str(), "$tag", arm_span)),
                    right: Box::new(integer(index, arm_span)),
                },
                span: arm_span,
            };
            let mut next: Vec<Stmt> = Vec::new();
            let ghost indices = seen@.subrange(from, seen@.len() as int);
            assert(indices.skip(1) =~= seen@.subrange(from + 1, seen@.len() as int));
            assert(indices[0] == index);
            next.push(Stmt { kind: StmtKind::If { condition, then_body: body, else_body: tail }, span: arm_span });
            tail = next;
        }
        let value_span = value.span;
        let subject_type = named(self.types[t].name.as_str(), value_span);
        let mut block: Vec<Stmt> = Vec::new();
        block.push(Stmt {
            kind: StmtKind::Binding {
                mutable: false,
                name: capture,
                type_spec: TypeSpec::Explicit(subject_type),
                value,
            },
            span: value_span,
        });
        let ghost added = tail@;
        block.append(&mut tail);
        assert forall|i: int| 0 <= i < block@.len() implies match_free(#[trigger] block@[i]) by {
            if i >= 1 {
                assert(block@[i] == added[i - 1]);
            }
        }
        proof {
            assert(block@[1] == added[0]);
            assert(seen@.subrange(0, seen@.len() as int) =~= seen@);
            let shape = self.types@[t as int];
            assert(shape.variants matches Some(vs) && seen@.len() == vs@.len());
            assert(forall|i: int| 0 <= i < seen@.len() ==> names_variant(shape, #[trigger] seen@[i], orig[i].variant@));
            assert(tag_chain(block@[1], block@[0].kind->Binding_name@, seen@));
        }
        let r = Stmt { kind: StmtKind::Block(block), span };
        Ok(r)
    }

    /// Lowers the defaults of type fields; names, types and spans stay.
    #[verifier::loop_isolation(false)]
    fn defaults(&mut self, fields: Vec<FieldDefinition>) -> (r: Result<Vec<FieldDefinition>, Diagnostic>)
        ensures
            final(self).types == old(self).types,
            old(self).enum_free() && defaults_plain(fields@) ==> r is Ok,
            (forall|f: int| 0 <= f < fields@.len() ==> ((#[trigger] fields@[f]).default matches Some(v) ==> expr_simple(
                old(self).types@,
                v,
            ))) ==> r is Ok,
            r matches Ok(out) ==> same_layout(fields@, out@),
            r matches Ok(out) ==> defaults_lower(old(self).types@, fields@, out@),
    {
        let ghost orig = fields@;
        let mut rest = fields;
        let mut out: Vec<FieldDefinition> = Vec::new();
        while rest.len() > 0
            invariant
                out@.len() + rest@.len() == orig.len(),
                rest@ == orig.skip(out@.len() as int),
                self.types == old(self).types,
                self.next_match == old(self).next_match,
                forall|i: int| 0 <= i < out@.len() ==> {
                    &&& (#[trigger] out@[i]).name == orig[i].name
                    &&& out@[i].name_span == orig[i].name_span
                    &&& out@[i].type_ref == orig[i].type_ref
                    &&& out@[i].span == orig[i].span
                    &&& (out@[i].default is None <==> orig[i].default is None)
                },
                defaults_lower(old(self).types@, orig.take(out@.len() as int), out@),
            decreases rest@.len(),
        {
            let ghost k = out@.len() as int;
            let field = rest.remove(0);
            assert(field == orig[k]);
            assert(rest@ =~= orig.skip(k + 1));
            let default = match field.default {
                Some(value) => Some(self.expr(value)?),
                None => None,
            };
            let ghost before = out@;
            out.push(FieldDefinition {
                name: field.name,
                name_span: field.name_span,
                type_ref: field.type_ref,
                default,
                span: field.span,
            });
            proof {
                assert forall|i: int| 0 <= i < k + 1 implies match (#[trigger] orig.take(k + 1)[i]).default {
                    Some(x) => (out@[i].default matches Some(y) && expr_lowers(old(self).types@, x, y)),
                    None => true,
                } by {
                    if i < k {
                        assert(orig.take(k)[i] == orig[i]);
                        assert(out@[i] == before[i]);
                    }
                }
            }
        }
        assert(orig.take(orig.len() as int) =~= orig);
        Ok(out)
    }
}

/// What lowering over the type table `types` keeps and produces for one
/// top-level item: an enum's storage layout, a product's fields with their
/// defaults lowered, and statements, function bodies and constant values
/// lowered as `stmt_lowers` and `expr_lowers` say.
pub open spec fn item_lowered(types: Seq<TypeShape>, item: Item, lowered: Item) -> bool {
    match item {
        Item::TypeDefinition(d0) => lowered matches Item::TypeDefinition(d1) && {
            &&& d1.name == d0.name
            &&& d1.variants == d0.variants
            &&& d1.name_span == d0.name_span
            &&& d1.span == d0.span
            &&& (d0.variants matches Some(vs) ==> enum_well_formed(vs@) && enum_storage(
                d1.fields@,
                vs@,
                d0.name_span,
            ))
            &&& (d0.variants is None ==> same_layout(d0.fields@, d1.fields@) && defaults_lower(
                types,
                d0.fields@,
                d1.fields@,
            ))
        },
        Item::Statement(s0) => lowered matches Item::Statement(s) && match_free(s) && stmt_lowers(types, s0, s),
        Item::FunctionDefinition(f0) => lowered matches Item::FunctionDefinition(f1) && {
            &&& f1.name == f0.name
            &&& f1.name_span == f0.name_span
            &&& f1.span == f0.span
            &&& f1.generic_parameters == f0.generic_parameters
            &&& f1.parameters == f0.parameters
            &&& f1.return_type == f0.return_type
            &&& all_match_free(f1.body@)
            &&& stmts_lower(types, f0.body@, f1.body@)
        },
        Item::ConstantDefinition(c0) => lowered matches Item::ConstantDefinition(c1) && {
            &&& c1.name == c0.name
            &&& c1.name_span == c0.name_span
            &&& c1.type_ref == c0.type_ref
            &&& c1.span == c0.span
            &&& expr_lowers(types, c0.value, c1.value)
        },
    }
}

/// Fields that agree on everything but their default values, and lack
/// the same defaults.
pub open spec fn same_layout(a: Seq<FieldDefinition>, b: Seq<FieldDefinition>) -> bool {
    &&& a.len() == b.len()
    &&& forall|i: int| 0 <= i < a.len() ==> {
        &&& (#[trigger] b[i]).name == a[i].name
        &&& b[i].name_span == a[i].name_span
        &&& b[i].type_ref == a[i].type_ref
        &&& b[i].span == a[i].span
        &&& (b[i].default is None <==> a[i].default is None)
    }
}

proof fn lemma_storage_kept(a: Seq<FieldDefinition>, b: Seq<FieldDefinition>, vs: Seq<VariantDefinition>, span: Span)
    requires
        enum_storage(a, vs, span),
        same_layout(a, b),
    ensures
        enum_storage(b, vs, span),
{
    lemma_offset_monotone(vs, 0, vs.len() as int);
    assert(b[0].name == a[0].name);
    assert forall|v: int, i: int|
        0 <= v < vs.len() && 0 <= i < vs[v].fields@.len() implies stores(
            #[trigger] b[1 + payload_offset(vs, v) + i],
            vs[v],
            vs[v].fields@[i],
        ) by {
        lemma_offset_monotone(vs, 0, v);
        lemma_offset_monotone(vs, v + 1, vs.len() as int);
        assert(payload_offset(vs, v + 1) == payload_offset(vs, v) + vs[v].fields@.len());
        assert(stores(a[1 + payload_offset(vs, v) + i], vs[v], vs[v].fields@[i]));
        assert(b[1 + payload_offset(vs, v) + i].name == a[1 + payload_offset(vs, v) + i].name);
    }
}

/// `item` is an enum whose variants break the rules of `enum_well_formed`.
pub open spec fn ill_formed_enum(item: Item) -> bool {
    match item {
        Item::TypeDefinition(d) => match d.variants {
            Some(vs) => !enum_well_formed(vs@),
            None => false,
        },
        _ => false,
    }
}

/// The enums of `items` are well formed, their type names are distinct,
/// and every item lowers over a table of its type definitions.
pub open spec fn lowerable_program(items: Seq<Item>) -> bool {
    &&& forall|i: int| 0 <= i < items.len() ==> !ill_formed_enum(#[trigger] items[i])
    &&& forall|i: int, j: int|
        0 <= i < j < items.len() && defined_type_name(items[i]) is Some ==> defined_type_name(#[trigger] items[i])
            != defined_type_name(#[trigger] items[j])
    &&& forall|shapes: Seq<TypeShape>|
        #[trigger] shapes_of(shapes, items) ==> forall|i: int| 0 <= i < items.len() ==> item_lowerable(shapes, #[trigger] items[i])
}

/// If `item` is an enum, none of its fields has a default.
pub open spec fn enum_fields_without_defaults(item: Item) -> bool {
    match item {
        Item::TypeDefinition(d) => d.variants is Some ==> forall|f: int|
            0 <= f < d.fields@.len() ==> (#[trigger] d.fields@[f]).default is None,
        _ => true,
    }
}

/// The enums of `items` are well formed, its type names are distinct, and
/// every item before position `k` lowers over a table of its type
/// definitions.
pub open spec fn lowerable_before(items: Seq<Item>, k: int) -> bool {
    &&& forall|i: int| 0 <= i < items.len() ==> !ill_formed_enum(#[trigger] items[i])
    &&& forall|i: int, j: int|
        0 <= i < j < items.len() && defined_type_name(items[i]) is Some ==> defined_type_name(#[trigger] items[i])
            != defined_type_name(#[trigger] items[j])
    &&& forall|shapes: Seq<TypeShape>|
        #[trigger] shapes_of(shapes, items) ==> forall|i: int| 0 <= i < k ==> item_lowerable(shapes, #[trigger] items[i])
}

/// The item at position `k` is a statement that is a `partial_match` over
/// every table of the type definitions of `items`.
pub open spec fn partial_match_item(items: Seq<Item>, k: int) -> bool {
    &&& items[k] is Statement
    &&& forall|shapes: Seq<TypeShape>| #[trigger] shapes_of(shapes, items) ==> partial_match(shapes, items[k]->Statement_0)
}

/// The item at position `k` is a statement that is an `armless_match` over
/// every table of the type definitions of `items`.
pub open spec fn armless_match_item(items: Seq<Item>, k: int) -> bool {
    &&& items[k] is Statement
    &&& forall|shapes: Seq<TypeShape>| #[trigger] shapes_of(shapes, items) ==> armless_match(shapes, items[k]->Statement_0)
}

/// `item` is an enum without variants.
pub open spec fn variantless_enum(item: Item) -> bool {
    item matches Item::TypeDefinition(d) && (d.variants matches Some(vs) && vs@.len() == 0)
}

/// No item before position `k` is an ill-formed enum, and no two of them
/// define the same type name.
pub open spec fn sound_before(items: Seq<Item>, k: int) -> bool {
    &&& forall|j: int| 0 <= j < k ==> !ill_formed_enum(#[trigger] items[j])
    &&& forall|i: int, j: int|
        0 <= i < j < k && defined_type_name(items[i]) is Some ==> defined_type_name(#[trigger] items[i])
            != defined_type_name(#[trigger] items[j])
}

/// The name of a type definition item.
pub open spec fn defined_type_name(item: Item) -> Option<Seq<char>> {
    match item {
        Item::TypeDefinition(d) => Some(d.name@),
        _ => None,
    }
}

/// Whether an item of `items` defines the type `name`.
fn defines_type(items: &Vec<Item>, name: &str) -> (r: bool)
    ensures
        r == exists|i: int| 0 <= i < items@.len() && defined_type_name(#[trigger] items@[i]) == Some(name@),
{
    let mut i: usize = 0;
    while i < items.len()
        invariant
            i <= items@.len(),
            forall|j: int| 0 <= j < i ==> defined_type_name(#[trigger] items@[j]) != Some(name@),
        decreases items@.len() - i,
    {
        match &items[i] {
            Item::TypeDefinition(d) => {
                if same_text(d.name.as_str(), name) {
                    return true;
                }
            },
            _ => {},
        }
        i = i + 1;
    }
    false
}

/// Lowers every enum of a program.
///
/// Each enum is checked (at least one variant, distinct variant names,
/// distinct payload names, no payload defaults) and laid out as a tag and
/// payload storage; type names must be distinct. Then every constructor of
/// a variant becomes a product value and every `match` a chain of tag tests.
/// A program with distinct type names, no enum and no `match`, whose product
/// constructors each name a field or a base value, always lowers; so does
/// one with well-formed enums whose constructors and `match` statements
/// name their variants and cover each enum's variants once. A top-level
/// `match` that leaves a variant out, or has no arm, is refused.
#[verifier::rlimit(60)]
pub fn lower(program: Program) -> (r: Result<Program, Diagnostic>)
    ensures
        r matches Ok(p) ==> {
            &&& p.items@.len() == program.items@.len()
            &&& exists|types: Seq<TypeShape>| #[trigger] shapes_of(types, program.items@) && forall|i: int|
                0 <= i < p.items@.len() ==> item_lowered(types, program.items@[i], #[trigger] p.items@[i])
            &&& forall|i: int, j: int|
                0 <= i < j < program.items@.len() && defined_type_name(program.items@[i]) is Some ==> defined_type_name(
                    program.items@[i],
                ) != defined_type_name(program.items@[j])
        },
        (exists|i: int| 0 <= i < program.items@.len() && ill_formed_enum(#[trigger] program.items@[i]))
            ==> r is Err,
        forall|k: int|
            0 <= k < program.items@.len() && #[trigger] variantless_enum(program.items@[k]) && sound_before(
                program.items@,
                k,
            ) ==> (r matches Err(e) && e.message@ == "an enum requires at least one variant"@ && e.span == Some(
                program.items@[k]->TypeDefinition_0.span,
            )),
        (forall|i: int| 0 <= i < program.items@.len() ==> item_plain(#[trigger] program.items@[i])) && (forall|i: int, j: int|
            0 <= i < j < program.items@.len() && defined_type_name(program.items@[i]) is Some ==> defined_type_name(
                program.items@[i],
            ) != defined_type_name(program.items@[j])) ==> r is Ok,
        lowerable_program(program.items@) ==> r is Ok,
        forall|k: int|
            0 <= k < program.items@.len() && lowerable_before(program.items@, k) && #[trigger] partial_match_item(
                program.items@,
                k,
            ) ==> (r matches Err(e) && non_exhaustive_message(e.message@)),
        forall|k: int|
            0 <= k < program.items@.len() && lowerable_before(program.items@, k) && #[trigger] armless_match_item(
                program.items@,
                k,
            ) ==> (r matches Err(e) && e.message@ == "match requires every enum variant"@),
{
    let ghost owed = lowerable_program(program.items@);
    let ghost laid_ok = (forall|i: int| 0 <= i < program.items@.len() ==> !ill_formed_enum(#[trigger] program.items@[i]))
        && (forall|i: int, j: int|
        0 <= i < j < program.items@.len() && defined_type_name(program.items@[i]) is Some ==> defined_type_name(
            #[trigger] program.items@[i],
        ) != defined_type_name(#[trigger] program.items@[j]));
    let ghost orig = program.items@;
    let ghost plain_program = (forall|i: int| 0 <= i < orig.len() ==> item_plain(#[trigger] orig[i])) && (forall|
        i: int,
        j: int,
    | 0 <= i < j < orig.len() && defined_type_name(orig[i]) is Some ==> defined_type_name(orig[i]) != defined_type_name(
        orig[j],
    ));
    let mut rest = program.items;
    let mut laid: Vec<Item> = Vec::new();
    let mut shapes: Vec<TypeShape> = Vec::new();
    while rest.len() > 0
        invariant
            laid@.len() + rest@.len() == orig.len(),
            rest@ == orig.skip(laid@.len() as int),
            forall|i: int| 0 <= i < laid@.len() ==> {
                &&& (#[trigger] laid@[i]) matches Item::TypeDefinition(d1) ==> orig[i] matches Item::TypeDefinition(d0) && {
                    &&& d1.name == d0.name
                    &&& d1.variants == d0.variants
                    &&& d1.name_span == d0.name_span
                    &&& d1.span == d0.span
                    &&& (d0.variants matches Some(vs) ==> enum_well_formed(vs@) && enum_storage(d1.fields@, vs@, d0.name_span))
                    &&& (d0.variants is None ==> d1.fields@ == d0.fields@)
                }
                &&& !(laid@[i] is TypeDefinition) ==> laid@[i] == orig[i]
            },
            forall|i: int| 0 <= i < laid@.len() ==> (orig[i] is TypeDefinition <==> (#[trigger] laid@[i]) is TypeDefinition),
            forall|i: int| 0 <= i < laid@.len() ==> !ill_formed_enum(#[trigger] orig[i]),
            forall|i: int| 0 <= i < laid@.len() ==> defined_type_name(#[trigger] laid@[i]) == defined_type_name(orig[i]),
            forall|i: int, j: int|
                0 <= i < j < laid@.len() && defined_type_name(orig[i]) is Some ==> defined_type_name(orig[i]) != defined_type_name(orig[j]),
            orig == program.items@,
            plain_program == ((forall|i: int| 0 <= i < orig.len() ==> item_plain(#[trigger] orig[i])) && (forall|i: int, j: int|
                0 <= i < j < orig.len() && defined_type_name(orig[i]) is Some ==> defined_type_name(orig[i])
                    != defined_type_name(orig[j]))),
            plain_program ==> forall|t: int| 0 <= t < shapes@.len() ==> (#[trigger] shapes@[t]).variants is None,
            shapes_of(shapes@, orig.take(laid@.len() as int)),
            owed == lowerable_program(orig),
            laid_ok == ((forall|i: int| 0 <= i < orig.len() ==> !ill_formed_enum(#[trigger] orig[i])) && (forall|i: int, j: int|
                0 <= i < j < orig.len() && defined_type_name(orig[i]) is Some ==> defined_type_name(#[trigger] orig[i])
                    != defined_type_name(#[trigger] orig[j]))),
            forall|i: int| 0 <= i < laid@.len() ==> enum_fields_without_defaults(#[trigger] laid@[i]),
        decreases rest@.len(),
    {
        let ghost k = laid@.len() as int;
        let item = rest.remove(0);
        assert(item == orig[k]);
        assert(rest@ =~= orig.skip(k + 1));
        proof {
            assert(orig.take(k + 1).drop_last() =~= orig.take(k));
            assert(orig.take(k + 1).last() == orig[k]);
        }
        let ghost shapes_before = shapes@;
        let ghost laid_before = laid@;
        match item {
            Item::TypeDefinition(d) => {
                let mut d = d;
                let ghost d0 = d;
                proof {
                    if laid_ok {
                        assert(!ill_formed_enum(orig[k]));
                    }
                }
                layout_enum(&mut d)?;
                proof {
                    if laid_ok {
                        if exists|i: int| 0 <= i < laid@.len() && defined_type_name(#[trigger] laid@[i]) == Some(d.name@) {
                            let i = choose|i: int| 0 <= i < laid@.len() && defined_type_name(#[trigger] laid@[i]) == Some(d.name@);
                            assert(defined_type_name(laid@[i]) == defined_type_name(orig[i]));
                            assert(defined_type_name(orig[k]) == Some(d.name@));
                        }
                    }
                }
                proof {
                    if plain_program {
                        assert(item_plain(orig[k]));
                        if exists|i: int| 0 <= i < laid@.len() && defined_type_name(#[trigger] laid@[i]) == Some(d.name@) {
                            let i = choose|i: int| 0 <= i < laid@.len() && defined_type_name(#[trigger] laid@[i]) == Some(d.name@);
                            assert(defined_type_name(laid@[i]) == defined_type_name(orig[i]));
                            assert(defined_type_name(orig[k]) == Some(d.name@));
                        }
                    }
                }
                if defines_type(&laid, d.name.as_str()) {
                    let mut message = joined("duplicate type `", d.name.as_str());
                    message.append("`");
                    return Err(Diagnostic::new(message, d.name_span));
                }
                let shape = type_shape(&d);
                proof {
                    assert(shape_of(shape, d0));
                }
                shapes.push(shape);
                laid.push(Item::TypeDefinition(d));
                proof {
                    assert(type_definitions(orig.take(k + 1)) == type_definitions(orig.take(k)).push(d0));
                    assert forall|j: int| 0 <= j < shapes@.len() implies shape_of(#[trigger] shapes@[j], type_definitions(orig.take(k + 1))[j]) by {
                        if j < shapes_before.len() {
                            assert(shapes@[j] == shapes_before[j]);
                        }
                    }
                    assert forall|i: int| 0 <= i < laid@.len() implies enum_fields_without_defaults(#[trigger] laid@[i]) by {
                        if i < laid_before.len() {
                            assert(laid@[i] == laid_before[i]);
                        }
                    }
                }
            },
            other => {
                laid.push(other);
                proof {
                    assert(type_definitions(orig.take(k + 1)) == type_definitions(orig.take(k)));
                    assert forall|i: int| 0 <= i < laid@.len() implies enum_fields_without_defaults(#[trigger] laid@[i]) by {
                        if i < laid_before.len() {
                            assert(laid@[i] == laid_before[i]);
                        }
                    }
                }
            },
        }
        proof {
            assert forall|i: int, j: int|
                0 <= i < j < laid@.len() && defined_type_name(orig[i]) is Some implies defined_type_name(orig[i])
                    != defined_type_name(orig[j]) by {
                if j == k {
                    assert(defined_type_name(laid@[i]) == defined_type_name(orig[i]));
                }
            }
        }
    }
    proof {
        assert forall|i: int| 0 <= i < orig.len() implies !variantless_enum(#[trigger] orig[i]) by {
            assert(!ill_formed_enum(orig[i]));
        }
    }
    proof {
        assert(orig.take(orig.len() as int) =~= orig);
        assert(shapes_of(shapes@, orig));
    }
    let ghost table = shapes@;
    let mut lowerer = Lowerer { types: shapes, next_match: 0 };
    let ghost mid = laid@;
    let mut rest = laid;
    let mut out: Vec<Item> = Vec::new();
    while rest.len() > 0
        invariant
            out@.len() + rest@.len() == orig.len(),
            mid.len() == orig.len(),
            rest@ == mid.skip(out@.len() as int),
            forall|i: int| 0 <= i < mid.len() ==> {
                &&& (#[trigger] mid[i]) matches Item::TypeDefinition(d1) ==> orig[i] matches Item::TypeDefinition(d0) && {
                    &&& d1.name == d0.name
                    &&& d1.variants == d0.variants
                    &&& d1.name_span == d0.name_span
                    &&& d1.span == d0.span
                    &&& (d0.variants matches Some(vs) ==> enum_well_formed(vs@) && enum_storage(d1.fields@, vs@, d0.name_span))
                    &&& (d0.variants is None ==> d1.fields@ == d0.fields@)
                }
                &&& !(mid[i] is TypeDefinition) ==> mid[i] == orig[i]
            },
            forall|i: int| 0 <= i < mid.len() ==> (orig[i] is TypeDefinition <==> (#[trigger] mid[i]) is TypeDefinition),
            forall|i: int| 0 <= i < out@.len() ==> item_lowered(table, orig[i], #[trigger] out@[i]),
            forall|i: int| 0 <= i < orig.len() ==> !variantless_enum(#[trigger] orig[i]),
            lowerer.types@ == table,
            owed == lowerable_program(orig),
            shapes_of(table, orig),
            forall|k2: int|
                0 <= k2 < orig.len() && lowerable_before(orig, k2) && (partial_match_item(orig, k2) || armless_match_item(orig, k2))
                    ==> out@.len() <= k2,
            owed ==> forall|i: int| 0 <= i < orig.len() ==> item_lowerable(table, #[trigger] orig[i]),
            forall|i: int| 0 <= i < mid.len() ==> enum_fields_without_defaults(#[trigger] mid[i]),
            orig == program.items@,
            plain_program == ((forall|i: int| 0 <= i < orig.len() ==> item_plain(#[trigger] orig[i])) && (forall|i: int, j: int|
                0 <= i < j < orig.len() && defined_type_name(orig[i]) is Some ==> defined_type_name(orig[i])
                    != defined_type_name(orig[j]))),
            plain_program ==> lowerer.enum_free(),
        decreases rest@.len(),
    {
        let ghost k = out@.len() as int;
        let item = rest.remove(0);
        assert(item == mid[k]);
        assert(rest@ =~= mid.skip(k + 1));
        let ghost here = owed || exists|k2: int| k < k2 < orig.len() && lowerable_before(orig, k2);
        proof {
            if here {
                if !owed {
                    let k2 = choose|k2: int| k < k2 < orig.len() && lowerable_before(orig, k2);
                    assert(item_lowerable(table, orig[k]));
                }
                assert(item_lowerable(table, orig[k]));
                assert(enum_fields_without_defaults(mid[k]));
                if let Item::TypeDefinition(d1) = mid[k] {
                    let d0 = orig[k]->TypeDefinition_0;
                    if d0.variants is None {
                        assert(d1.fields@ == d0.fields@);
                    }
                    assert forall|f: int| 0 <= f < d1.fields@.len() implies ((#[trigger] d1.fields@[f]).default matches Some(v)
                        ==> expr_simple(table, v)) by {
                        if d0.variants is None {
                            assert(d1.fields@[f] == d0.fields@[f]);
                        }
                    }
                } else {
                    assert(mid[k] == orig[k]);
                }
            }
        }
        proof {
            if plain_program {
                assert(item_plain(orig[k]));
                if let Item::TypeDefinition(d1) = mid[k] {
                    let d0 = orig[k]->TypeDefinition_0;
                    assert(d0.variants is None);
                    assert(d1.fields@ == d0.fields@);
                    assert(defaults_plain(d1.fields@));
                } else {
                    assert(mid[k] == orig[k]);
                }
            }
        }
        let lowered = match item {
            Item::TypeDefinition(d) => {
                let ghost fields0 = d.fields@;
                let fields = lowerer.defaults(d.fields)?;
                let d1 = TypeDefinition {
                    variants: d.variants,
                    name: d.name,
                    name_span: d.name_span,
                    fields,
                    span: d.span,
                };
                proof {
                    let d0 = orig[k]->TypeDefinition_0;
                    assert(orig[k] is TypeDefinition);
                    match d1.variants {
                        Some(ref vs) => {
                            assert(d0.variants == Some(*vs));
                            lemma_storage_kept(fields0, d1.fields@, vs@, d0.name_span);
                        },
                        None => {},
                    }
                    assert(item_lowered(table, orig[k], Item::TypeDefinition(d1)));
                }
                Item::TypeDefinition(d1)
            },
            Item::ConstantDefinition(c) => {
                let value = lowerer.expr(c.value)?;
                Item::ConstantDefinition(crate::ast::ConstantDefinition {
                    name: c.name,
                    name_span: c.name_span,
                    type_ref: c.type_ref,
                    value,
                    span: c.span,
                })
            },
            Item::FunctionDefinition(f) => {
                let body = lowerer.statements(f.body)?;
                Item::FunctionDefinition(crate::ast::FunctionDefinition {
                    generic_parameters: f.generic_parameters,
                    name: f.name,
                    name_span: f.name_span,
                    parameters: f.parameters,
                    return_type: f.return_type,
                    body,
                    span: f.span,
                })
            },
            Item::Statement(s) => Item::Statement(lowerer.statement(s)?),
        };
        out.push(lowered);
    }
    assert(shapes_of(table, program.items@));
    Ok(Program { items: out })
}

} // verus!
