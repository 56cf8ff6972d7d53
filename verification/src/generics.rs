//! Generic function instantiation: every call `f::<A, B>(..)` of a generic
//! function becomes a call of an ordinary function made from the template
//! with its parameters replaced. Equal argument lists share one instance.
use vstd::prelude::*;
use crate::array_lengths::{constant_free, constant_length, resolved_type, EvaluatedConstant, LengthUse};
use crate::array_lengths::{resolve_length, resolve_type};
use crate::ast::{
    builtin_named, AssignmentProjection, AssignmentTarget, ConstantDefinition, Expr, ExprKind, FieldDefinition,
    FieldValue, FunctionDefinition, GenericArgument, GenericOrigin, GenericParameter, GenericUse, IntegerLiteral,
    IterationBinding, Item, MatchArm, Parameter, Program, ReturnTypeRef, Stmt, StmtKind, Type,
    TypeDefinition, TypeRef, TypeRefKind, TypeSpec, VariantDefinition,
};
use crate::copy::{copy_function, copy_type_ref};
use crate::types::IntegerType;
use crate::diagnostic::Diagnostic;
use crate::source::Span;
use crate::text::{contains_text, decimal, decimal_text, same_text};

verus! {

/// `parts` written one after another with `sep` between neighbours.
pub open spec fn joined_with(parts: Seq<Seq<char>>, sep: Seq<char>) -> Seq<char>
    decreases parts.len(),
{
    if parts.len() == 0 {
        Seq::empty()
    } else if parts.len() == 1 {
        parts[0]
    } else {
        joined_with(parts.drop_last(), sep) + sep + parts.last()
    }
}

/// The texts of a list of strings.
pub open spec fn texts(list: Seq<String>) -> Seq<Seq<char>> {
    list.map_values(|s: String| s@)
}

/// `template::<a, b, ..>`: how an instantiation is named in messages, and
/// the key under which equal instantiations are shared.
pub open spec fn instantiation_key(template: Seq<char>, arguments: Seq<Seq<char>>) -> Seq<char> {
    template + "::<"@ + joined_with(arguments, ", "@) + ">"@
}

/// The range `definition` encloses the range `span`.
pub open spec fn covers(definition: Span, span: Span) -> bool {
    &&& definition.source == span.source
    &&& definition.start <= span.start
    &&& span.end <= definition.end
}

/// The note that names an instantiation and its first call site.
pub open spec fn instantiation_note(origin: GenericOrigin) -> Seq<char> {
    let call = origin.calls@[0].span;
    instantiation_key(origin.template@, texts(origin.arguments@)) + " called at source="@
        + decimal(call.source.index as nat) + " bytes="@ + decimal(call.start as nat) + ".."@
        + decimal(call.end as nat)
}

/// The notes of the instantiations whose template encloses `span`, in order.
pub open spec fn covering_notes(origins: Seq<(String, GenericOrigin)>, span: Span) -> Seq<Seq<char>>
    decreases origins.len(),
{
    if origins.len() == 0 {
        Seq::empty()
    } else {
        let rest = covering_notes(origins.drop_last(), span);
        if covers(origins.last().1.definition, span) {
            rest.push(instantiation_note(origins.last().1))
        } else {
            rest
        }
    }
}

/// Every instantiation whose template encloses `span` has a call site.
pub open spec fn covering_origins_called(origins: Seq<(String, GenericOrigin)>, span: Span) -> bool {
    forall|i: int|
        0 <= i < origins.len() && covers((#[trigger] origins[i]).1.definition, span)
            ==> origins[i].1.calls@.len() > 0
}

/// `parts` joined by `sep`.
fn join(parts: &Vec<String>, sep: &str) -> (r: String)
    ensures
        r@ == joined_with(texts(parts@), sep@),
{
    let mut r = String::new();
    let mut i: usize = 0;
    while i < parts.len()
        invariant
            i <= parts@.len(),
            r@ == joined_with(texts(parts@.take(i as int)), sep@),
        decreases parts@.len() - i,
    {
        proof {
            assert(texts(parts@.take(i + 1)).drop_last() =~= texts(parts@.take(i as int)));
        }
        if i > 0 {
            r.append(sep);
        }
        r.append(parts[i].as_str());
        i = i + 1;
    }
    assert(parts@.take(parts@.len() as int) =~= parts@);
    r
}

/// The output of generic instantiation: the program without generic
/// functions and with one ordinary function per distinct instantiation;
/// each instance's name with where it came from; the concrete type
/// arguments that were used; and the constant lengths that were resolved.
pub struct Lowered {
    pub program: Program,
    pub origins: Vec<(String, GenericOrigin)>,
    pub types: Vec<TypeRef>,
    pub array_length_uses: Vec<LengthUse>,
}

impl Lowered {
    /// Adds to an error inside instantiated code the instantiations it came
    /// from: for each instantiation whose template encloses the error's
    /// range, its name and first call site. An error without a range, or
    /// outside every template, is returned as it is.
    pub fn context(&self, error: Diagnostic) -> (r: Diagnostic)
        requires
            error.span matches Some(span) ==> covering_origins_called(self.origins@, span),
        ensures
            error.span is None ==> r == error,
            error.span matches Some(span) ==> {
                let notes = covering_notes(self.origins@, span);
                &&& notes.len() == 0 ==> r == error
                &&& notes.len() > 0 ==> r.span == Some(span) && r.message@ == error.message@
                    + "; generic instantiations: "@ + joined_with(notes, "; "@)
            },
    {
        let span = match error.primary_span() {
            Some(span) => span,
            None => return error,
        };
        let mut notes: Vec<String> = Vec::new();
        let mut i: usize = 0;
        while i < self.origins.len()
            invariant
                i <= self.origins@.len(),
                error.span == Some(span),
                covering_origins_called(self.origins@, span),
                texts(notes@) == covering_notes(self.origins@.take(i as int), span),
            decreases self.origins@.len() - i,
        {
            proof {
                assert(self.origins@.take(i + 1).drop_last() =~= self.origins@.take(i as int));
            }
            let origin = &self.origins[i].1;
            let definition = origin.definition;
            if definition.source_id() == span.source_id() && definition.start() <= span.start()
                && span.end() <= definition.end() {
                let call = origin.calls[0].span;
                let mut note = String::from_str(origin.template.as_str());
                note.append("::<");
                let arguments = join(&origin.arguments, ", ");
                note.append(arguments.as_str());
                note.append(">");
                note.append(" called at source=");
                let source = decimal_text(call.source_id().index() as u64);
                note.append(source.as_str());
                note.append(" bytes=");
                let start = decimal_text(call.start() as u64);
                note.append(start.as_str());
                note.append("..");
                let end = decimal_text(call.end() as u64);
                note.append(end.as_str());
                proof {
                    assert(note@ =~= instantiation_note(*origin));
                    assert(texts(notes@.push(note)) =~= texts(notes@).push(note@));
                }
                notes.push(note);
            }
            i = i + 1;
        }
        proof {
            assert(self.origins@.take(self.origins@.len() as int) =~= self.origins@);
        }
        if notes.len() == 0 {
            return error;
        }
        let mut message = String::from_str(error.message());
        message.append("; generic instantiations: ");
        let joined = join(&notes, "; ");
        message.append(joined.as_str());
        Diagnostic::new(message, span)
    }
}

/// The name that a function, constant or type definition declares.
pub open spec fn declared_name(item: Item) -> Option<Seq<char>> {
    match item {
        Item::FunctionDefinition(d) => Some(d.name@),
        Item::ConstantDefinition(d) => Some(d.name@),
        Item::TypeDefinition(d) => Some(d.name@),
        Item::Statement(_) => None,
    }
}

/// Some item declares `name` as a function, constant or type.
pub open spec fn declares(items: Seq<Item>, name: Seq<char>) -> bool {
    exists|i: int| 0 <= i < items.len() && #[trigger] declared_name(items[i]) == Some(name)
}

/// `item` defines a function named `name`.
pub open spec fn defines_function(item: Item, name: Seq<char>) -> bool {
    item matches Item::FunctionDefinition(d) && d.name@ == name
}

/// A function named `name` is defined among the first `k` items.
pub open spec fn function_before(items: Seq<Item>, k: int, name: Seq<char>) -> bool {
    exists|j: int| 0 <= j < k && #[trigger] defines_function(items[j], name)
}

/// Names that a generic function cannot have.
pub open spec fn reserved_template_name(name: Seq<char>) -> bool {
    ||| name == "main"@
    ||| name == "byte_len"@
    ||| name == "array_len"@
    ||| builtin_named(name) is Some
}

/// Names that a generic parameter cannot have.
pub open spec fn reserved_parameter_name(name: Seq<char>) -> bool {
    ||| builtin_named(name) is Some
    ||| name == "infer"@
    ||| name == "byte_len"@
    ||| name == "array_len"@
    ||| name == "convert"@
}

/// Generic parameter `q` of `d` repeats an earlier one, names a declared
/// item or takes a reserved name.
pub open spec fn bad_generic_parameter(items: Seq<Item>, d: FunctionDefinition, q: int) -> bool {
    let name = d.generic_parameters@[q].name@;
    ||| exists|r: int| 0 <= r < q && (#[trigger] d.generic_parameters@[r]).name@ == name
    ||| declares(items, name)
    ||| reserved_parameter_name(name)
}

/// The first bad generic parameter among the first `n`.
pub open spec fn first_bad_generic_parameter(items: Seq<Item>, d: FunctionDefinition, n: nat) -> Option<int>
    decreases n,
{
    if n == 0 {
        None
    } else {
        match first_bad_generic_parameter(items, d, (n - 1) as nat) {
            Some(q) => Some(q),
            None => if bad_generic_parameter(items, d, n - 1) { Some(n - 1) } else { None },
        }
    }
}

/// Value parameter `q` of `d` repeats a generic parameter or an earlier
/// value parameter.
pub open spec fn bad_value_parameter(d: FunctionDefinition, q: int) -> bool {
    let name = d.parameters@[q].name@;
    ||| exists|r: int| 0 <= r < d.generic_parameters@.len() && (#[trigger] d.generic_parameters@[r]).name@ == name
    ||| exists|r: int| 0 <= r < q && (#[trigger] d.parameters@[r]).name@ == name
}

/// The first bad value parameter among the first `n`.
pub open spec fn first_bad_value_parameter(d: FunctionDefinition, n: nat) -> Option<int>
    decreases n,
{
    if n == 0 {
        None
    } else {
        match first_bad_value_parameter(d, (n - 1) as nat) {
            Some(q) => Some(q),
            None => if bad_value_parameter(d, n - 1) { Some(n - 1) } else { None },
        }
    }
}

/// What is wrong with the function definition at `k`, as a message and a
/// range: a name defined by an earlier function, or, for a generic
/// function, a reserved name, a bad generic parameter or a bad value
/// parameter (the first of each, in that order).
pub open spec fn function_problem(items: Seq<Item>, k: int) -> Option<(Seq<char>, Span)> {
    match items[k] {
        Item::FunctionDefinition(d) => {
            if function_before(items, k, d.name@) {
                Some(("duplicate function "@ + d.name@, d.name_span))
            } else if d.generic_parameters@.len() == 0 {
                None
            } else if reserved_template_name(d.name@) {
                Some(("this function cannot have generic parameters"@, d.name_span))
            } else {
                match first_bad_generic_parameter(items, d, d.generic_parameters@.len()) {
                    Some(q) => Some((
                        "conflicting generic parameter "@ + d.generic_parameters@[q].name@,
                        d.generic_parameters@[q].span,
                    )),
                    None => match first_bad_value_parameter(d, d.parameters@.len()) {
                        Some(q) => Some((
                            "conflicting function parameter "@ + d.parameters@[q].name@,
                            d.parameters@[q].name_span,
                        )),
                        None => None,
                    },
                }
            }
        },
        _ => None,
    }
}

/// The first problem among the function definitions of the first `n` items.
pub open spec fn template_problem(items: Seq<Item>, n: nat) -> Option<(Seq<char>, Span)>
    decreases n,
{
    if n == 0 {
        None
    } else {
        match template_problem(items, (n - 1) as nat) {
            Some(p) => Some(p),
            None => function_problem(items, n - 1),
        }
    }
}

proof fn lemma_first_bad_generic_stable(items: Seq<Item>, d: FunctionDefinition, n: nat, m: nat)
    requires
        n <= m,
        first_bad_generic_parameter(items, d, n) is Some,
    ensures
        first_bad_generic_parameter(items, d, m) == first_bad_generic_parameter(items, d, n),
    decreases m - n,
{
    if n < m {
        lemma_first_bad_generic_stable(items, d, n, (m - 1) as nat);
    }
}

proof fn lemma_first_bad_value_stable(d: FunctionDefinition, n: nat, m: nat)
    requires
        n <= m,
        first_bad_value_parameter(d, n) is Some,
    ensures
        first_bad_value_parameter(d, m) == first_bad_value_parameter(d, n),
    decreases m - n,
{
    if n < m {
        lemma_first_bad_value_stable(d, n, (m - 1) as nat);
    }
}

proof fn lemma_template_problem_stable(items: Seq<Item>, n: nat, m: nat)
    requires
        n <= m,
        template_problem(items, n) is Some,
    ensures
        template_problem(items, m) == template_problem(items, n),
    decreases m - n,
{
    if n < m {
        lemma_template_problem_stable(items, n, (m - 1) as nat);
    }
}

/// Whether some item declares `name`.
fn declares_name(items: &Vec<Item>, name: &str) -> (r: bool)
    ensures
        r == declares(items@, name@),
{
    let mut i: usize = 0;
    while i < items.len()
        invariant
            i <= items@.len(),
            forall|j: int| 0 <= j < i ==> #[trigger] declared_name(items@[j]) != Some(name@),
        decreases items@.len() - i,
    {
        let found = match &items[i] {
            Item::FunctionDefinition(d) => same_text(d.name.as_str(), name),
            Item::ConstantDefinition(d) => same_text(d.name.as_str(), name),
            Item::TypeDefinition(d) => same_text(d.name.as_str(), name),
            Item::Statement(_) => false,
        };
        if found {
            assert(declared_name(items@[i as int]) == Some(name@));
            return true;
        }
        i = i + 1;
    }
    false
}

/// Whether a function among the first `k` items is named `name`.
fn defines_function_before(items: &Vec<Item>, k: usize, name: &str) -> (r: bool)
    requires
        k <= items@.len(),
    ensures
        r == function_before(items@, k as int, name@),
{
    let mut j: usize = 0;
    while j < k
        invariant
            k <= items@.len(),
            j <= k,
            forall|i: int| 0 <= i < j ==> !#[trigger] defines_function(items@[i], name@),
        decreases k - j,
    {
        if let Item::FunctionDefinition(d) = &items[j] {
            if same_text(d.name.as_str(), name) {
                assert(defines_function(items@[j as int], name@));
                return true;
            }
        }
        j = j + 1;
    }
    false
}

/// Whether `name` may not name a generic function.
fn is_reserved_template_name(name: &str) -> (r: bool)
    ensures
        r == reserved_template_name(name@),
{
    same_text(name, "main") || same_text(name, "byte_len") || same_text(name, "array_len")
        || Type::from_name(name).is_some()
}

/// Whether `name` may not name a generic parameter.
fn is_reserved_parameter_name(name: &str) -> (r: bool)
    ensures
        r == reserved_parameter_name(name@),
{
    Type::from_name(name).is_some() || same_text(name, "infer") || same_text(name, "byte_len")
        || same_text(name, "array_len") || same_text(name, "convert")
}

/// The first bad generic parameter of `d`.
fn find_bad_generic_parameter(items: &Vec<Item>, d: &FunctionDefinition) -> (r: Option<usize>)
    ensures
        r matches Some(q) ==> first_bad_generic_parameter(items@, *d, d.generic_parameters@.len()) == Some(q as int)
            && q < d.generic_parameters@.len(),
        r is None ==> first_bad_generic_parameter(items@, *d, d.generic_parameters@.len()) is None,
{
    let mut q: usize = 0;
    while q < d.generic_parameters.len()
        invariant
            q <= d.generic_parameters@.len(),
            first_bad_generic_parameter(items@, *d, q as nat) is None,
        decreases d.generic_parameters@.len() - q,
    {
        let name = d.generic_parameters[q].name.as_str();
        let mut repeated = false;
        let mut r: usize = 0;
        while !repeated && r < q
            invariant
                q < d.generic_parameters@.len(),
                name@ == d.generic_parameters@[q as int].name@,
                r <= q,
                !repeated ==> forall|t: int| 0 <= t < r ==> (#[trigger] d.generic_parameters@[t]).name@ != name@,
                repeated ==> bad_generic_parameter(items@, *d, q as int),
            decreases q - r,
        {
            if same_text(d.generic_parameters[r].name.as_str(), name) {
                repeated = true;
            }
            r = r + 1;
        }
        if repeated || declares_name(items, name) || is_reserved_parameter_name(name) {
            assert(bad_generic_parameter(items@, *d, q as int));
            proof {
                lemma_first_bad_generic_stable(items@, *d, (q + 1) as nat, d.generic_parameters@.len());
            }
            return Some(q);
        }
        assert(!bad_generic_parameter(items@, *d, q as int));
        q = q + 1;
    }
    None
}

/// The first bad value parameter of `d`.
fn find_bad_value_parameter(d: &FunctionDefinition) -> (r: Option<usize>)
    ensures
        r matches Some(q) ==> first_bad_value_parameter(*d, d.parameters@.len()) == Some(q as int)
            && q < d.parameters@.len(),
        r is None ==> first_bad_value_parameter(*d, d.parameters@.len()) is None,
{
    let mut q: usize = 0;
    while q < d.parameters.len()
        invariant
            q <= d.parameters@.len(),
            first_bad_value_parameter(*d, q as nat) is None,
        decreases d.parameters@.len() - q,
    {
        let name = d.parameters[q].name.as_str();
        let mut clash = false;
        let mut r: usize = 0;
        while !clash && r < d.generic_parameters.len()
            invariant
                q < d.parameters@.len(),
                name@ == d.parameters@[q as int].name@,
                r <= d.generic_parameters@.len(),
                !clash ==> forall|t: int| 0 <= t < r ==> (#[trigger] d.generic_parameters@[t]).name@ != name@,
                clash ==> bad_value_parameter(*d, q as int),
            decreases d.generic_parameters@.len() - r,
        {
            if same_text(d.generic_parameters[r].name.as_str(), name) {
                clash = true;
            }
            r = r + 1;
        }
        let mut r: usize = 0;
        while !clash && r < q
            invariant
                q < d.parameters@.len(),
                name@ == d.parameters@[q as int].name@,
                r <= q,
                !clash ==> forall|t: int| 0 <= t < r ==> (#[trigger] d.parameters@[t]).name@ != name@,
                !clash ==> forall|t: int| 0 <= t < d.generic_parameters@.len() ==> (#[trigger] d.generic_parameters@[t]).name@ != name@,
                clash ==> bad_value_parameter(*d, q as int),
            decreases q - r,
        {
            if same_text(d.parameters[r].name.as_str(), name) {
                clash = true;
            }
            r = r + 1;
        }
        if clash {
            assert(bad_value_parameter(*d, q as int));
            proof {
                lemma_first_bad_value_stable(*d, (q + 1) as nat, d.parameters@.len());
            }
            return Some(q);
        }
        assert(!bad_value_parameter(*d, q as int));
        q = q + 1;
    }
    None
}

/// The problem with the function definition at `k`, if any.
fn check_function(items: &Vec<Item>, k: usize) -> (r: Option<Diagnostic>)
    requires
        k < items@.len(),
    ensures
        function_problem(items@, k as int) matches Some((message, span))
            ==> r matches Some(e) && e.message@ == message && e.span == Some(span),
        function_problem(items@, k as int) is None ==> r is None,
{
    let d = match &items[k] {
        Item::FunctionDefinition(d) => d,
        _ => return None,
    };
    if defines_function_before(items, k, d.name.as_str()) {
        let mut message = String::from_str("duplicate function ");
        message.append(d.name.as_str());
        return Some(Diagnostic::new(message, d.name_span));
    }
    if d.generic_parameters.len() == 0 {
        return None;
    }
    if is_reserved_template_name(d.name.as_str()) {
        return Some(Diagnostic::new(String::from_str("this function cannot have generic parameters"), d.name_span));
    }
    match find_bad_generic_parameter(items, d) {
        Some(q) => {
            let mut message = String::from_str("conflicting generic parameter ");
            message.append(d.generic_parameters[q].name.as_str());
            return Some(Diagnostic::new(message, d.generic_parameters[q].span));
        },
        None => {},
    }
    match find_bad_value_parameter(d) {
        Some(q) => {
            let mut message = String::from_str("conflicting function parameter ");
            message.append(d.parameters[q].name.as_str());
            Some(Diagnostic::new(message, d.parameters[q].name_span))
        },
        None => None,
    }
}

/// Checks every function definition in order, stopping at the first problem.
fn check_templates(items: &Vec<Item>) -> (r: Result<(), Diagnostic>)
    ensures
        template_problem(items@, items@.len()) matches Some((message, span))
            ==> r matches Err(e) && e.message@ == message && e.span == Some(span),
        template_problem(items@, items@.len()) is None ==> r is Ok,
{
    let mut k: usize = 0;
    while k < items.len()
        invariant
            k <= items@.len(),
            template_problem(items@, k as nat) is None,
        decreases items@.len() - k,
    {
        match check_function(items, k) {
            Some(e) => {
                proof {
                    lemma_template_problem_stable(items@, (k + 1) as nat, items@.len());
                }
                return Err(e);
            },
            None => {},
        }
        k = k + 1;
    }
    Ok(())
}

/// `e` holds no generic call, at any depth.
pub open spec fn expr_generic_free(e: Expr) -> bool
    decreases e,
{
    match e.kind {
        ExprKind::GenericCall(_) => false,
        ExprKind::Call { arguments, .. } => forall|i: int|
            0 <= i < arguments@.len() ==> expr_generic_free(#[trigger] arguments@[i]),
        ExprKind::Array(values) => forall|i: int|
            0 <= i < values@.len() ==> expr_generic_free(#[trigger] values@[i]),
        ExprKind::Construct { base, fields, .. } => {
            &&& (base matches Some(b) ==> expr_generic_free(*b))
            &&& forall|i: int| 0 <= i < fields@.len() ==> expr_generic_free(#[trigger] fields@[i].value)
        },
        ExprKind::Convert { value, .. } => expr_generic_free(*value),
        ExprKind::Unary { value, .. } => expr_generic_free(*value),
        ExprKind::FieldAccess { base, .. } => expr_generic_free(*base),
        ExprKind::Binary { left, right, .. } => expr_generic_free(*left) && expr_generic_free(*right),
        ExprKind::Logical { left, right, .. } => expr_generic_free(*left) && expr_generic_free(*right),
        ExprKind::Index { base, index } => expr_generic_free(*base) && expr_generic_free(*index),
        _ => true,
    }
}

/// `s` holds no generic call, at any depth.
pub open spec fn stmt_generic_free(s: Stmt) -> bool
    decreases s,
{
    match s.kind {
        StmtKind::ForEach { value, body, .. } => {
            &&& expr_generic_free(value)
            &&& forall|i: int| 0 <= i < body@.len() ==> stmt_generic_free(#[trigger] body@[i])
        },
        StmtKind::Match { value, arms } => {
            &&& expr_generic_free(value)
            &&& forall|i: int, j: int|
                0 <= i < arms@.len() && 0 <= j < arms@[i].body@.len()
                    ==> stmt_generic_free(#[trigger] arms@[i].body@[j])
        },
        StmtKind::Block(body) => forall|i: int| 0 <= i < body@.len() ==> stmt_generic_free(#[trigger] body@[i]),
        StmtKind::Binding { value, .. } => expr_generic_free(value),
        StmtKind::Assignment { target, value } => {
            &&& forall|i: int|
                0 <= i < target.projections@.len() ==> expr_generic_free((#[trigger] target.projections@[i])->index)
            &&& expr_generic_free(value)
        },
        StmtKind::Print { value } => expr_generic_free(value),
        StmtKind::Call { value } => expr_generic_free(value),
        StmtKind::Return { value } => value matches Some(v) ==> expr_generic_free(v),
        StmtKind::If { condition, then_body, else_body } => {
            &&& expr_generic_free(condition)
            &&& forall|i: int| 0 <= i < then_body@.len() ==> stmt_generic_free(#[trigger] then_body@[i])
            &&& forall|i: int| 0 <= i < else_body@.len() ==> stmt_generic_free(#[trigger] else_body@[i])
        },
        StmtKind::While { condition, body } => {
            &&& expr_generic_free(condition)
            &&& forall|i: int| 0 <= i < body@.len() ==> stmt_generic_free(#[trigger] body@[i])
        },
        StmtKind::For { initializer, condition, update, body } => {
            &&& stmt_generic_free(*initializer)
            &&& expr_generic_free(condition)
            &&& stmt_generic_free(*update)
            &&& forall|i: int| 0 <= i < body@.len() ==> stmt_generic_free(#[trigger] body@[i])
        },
        StmtKind::Break => true,
        StmtKind::Continue => true,
    }
}

/// No statement of `body` holds a generic call.
pub open spec fn stmts_generic_free(body: Seq<Stmt>) -> bool {
    forall|i: int| 0 <= i < body.len() ==> stmt_generic_free(#[trigger] body[i])
}

/// No default value among `fields` holds a generic call.
pub open spec fn defaults_generic_free(fields: Seq<FieldDefinition>) -> bool {
    forall|i: int| 0 <= i < fields.len() ==> ((#[trigger] fields[i]).default matches Some(v) ==> expr_generic_free(v))
}

/// `d` is an ordinary function whose body holds no generic call.
pub open spec fn function_generic_free(d: FunctionDefinition) -> bool {
    &&& d.generic_parameters@.len() == 0
    &&& stmts_generic_free(d.body@)
}

/// `item` neither defines a generic function nor holds a generic call.
pub open spec fn item_generic_free(item: Item) -> bool {
    match item {
        Item::ConstantDefinition(d) => expr_generic_free(d.value),
        Item::TypeDefinition(d) => {
            &&& defaults_generic_free(d.fields@)
            &&& d.variants matches Some(vs) ==> forall|i: int|
                0 <= i < vs@.len() ==> defaults_generic_free((#[trigger] vs@[i]).fields@)
        },
        Item::FunctionDefinition(d) => function_generic_free(d),
        Item::Statement(s) => stmt_generic_free(s),
    }
}

/// `e` holds no generic call, calls no template of `templates` by a plain
/// call, uses no type parameter of `subs` as a value, and its conversion
/// targets take `subs` without error, at any depth.
pub open spec fn expr_ordinary(subs: Seq<(String, Argument)>, templates: Seq<FunctionDefinition>, e: Expr) -> bool
    decreases e,
{
    match e.kind {
        ExprKind::GenericCall(_) => false,
        ExprKind::Call { name, arguments, .. } => !names_template(templates, name@) && forall|i: int|
            0 <= i < arguments@.len() ==> expr_ordinary(subs, templates, #[trigger] arguments@[i]),
        ExprKind::Array(values) => forall|i: int|
            0 <= i < values@.len() ==> expr_ordinary(subs, templates, #[trigger] values@[i]),
        ExprKind::Construct { base, fields, .. } => {
            &&& (base matches Some(b) ==> expr_ordinary(subs, templates, *b))
            &&& forall|i: int| 0 <= i < fields@.len() ==> expr_ordinary(subs, templates, #[trigger] fields@[i].value)
        },
        ExprKind::Convert { target, value, .. } => substituted_type(subs, target) is Ok && expr_ordinary(subs, templates, *value),
        ExprKind::Variable(n) => !(substitution(subs, n@) matches Some(Argument::Type(_))),
        ExprKind::Unary { value, .. } => expr_ordinary(subs, templates, *value),
        ExprKind::FieldAccess { base, .. } => expr_ordinary(subs, templates, *base),
        ExprKind::Binary { left, right, .. } => expr_ordinary(subs, templates, *left) && expr_ordinary(subs, templates, *right),
        ExprKind::Logical { left, right, .. } => expr_ordinary(subs, templates, *left) && expr_ordinary(subs, templates, *right),
        ExprKind::Index { base, index } => expr_ordinary(subs, templates, *base) && expr_ordinary(subs, templates, *index),
        _ => true,
    }
}

/// `expr_ordinary` of every expression in `s`, at any depth; and no
/// binding, assignment target or pattern binding in `s` is named like a
/// parameter of `subs`, and every written type takes `subs` without error.
pub open spec fn stmt_ordinary(subs: Seq<(String, Argument)>, templates: Seq<FunctionDefinition>, s: Stmt) -> bool
    decreases s,
{
    match s.kind {
        StmtKind::ForEach { index, element, value, body, .. } => {
            &&& binding_ordinary(subs, element)
            &&& (index matches Some(b) ==> binding_ordinary(subs, b))
            &&& expr_ordinary(subs, templates, value)
            &&& forall|i: int| 0 <= i < body@.len() ==> stmt_ordinary(subs, templates, #[trigger] body@[i])
        },
        StmtKind::Match { value, arms } => {
            &&& expr_ordinary(subs, templates, value)
            &&& forall|i: int, f: int|
                0 <= i < arms@.len() && 0 <= f < arms@[i].fields@.len() ==> substitution(
                    subs,
                    (#[trigger] arms@[i].fields@[f]).binding@,
                ) is None
            &&& forall|i: int, j: int|
                0 <= i < arms@.len() && 0 <= j < arms@[i].body@.len()
                    ==> stmt_ordinary(subs, templates, #[trigger] arms@[i].body@[j])
        },
        StmtKind::Block(body) => forall|i: int| 0 <= i < body@.len() ==> stmt_ordinary(subs, templates, #[trigger] body@[i]),
        StmtKind::Binding { name, type_spec, value, .. } => {
            &&& substitution(subs, name@) is None
            &&& spec_substitutes_ok(subs, type_spec)
            &&& expr_ordinary(subs, templates, value)
        },
        StmtKind::Assignment { target, value } => {
            &&& substitution(subs, target.name@) is None
            &&& forall|i: int|
                0 <= i < target.projections@.len() ==> expr_ordinary(subs, templates, (#[trigger] target.projections@[i])->index)
            &&& expr_ordinary(subs, templates, value)
        },
        StmtKind::Print { value } => expr_ordinary(subs, templates, value),
        StmtKind::Call { value } => expr_ordinary(subs, templates, value),
        StmtKind::Return { value } => value matches Some(v) ==> expr_ordinary(subs, templates, v),
        StmtKind::If { condition, then_body, else_body } => {
            &&& expr_ordinary(subs, templates, condition)
            &&& forall|i: int| 0 <= i < then_body@.len() ==> stmt_ordinary(subs, templates, #[trigger] then_body@[i])
            &&& forall|i: int| 0 <= i < else_body@.len() ==> stmt_ordinary(subs, templates, #[trigger] else_body@[i])
        },
        StmtKind::While { condition, body } => {
            &&& expr_ordinary(subs, templates, condition)
            &&& forall|i: int| 0 <= i < body@.len() ==> stmt_ordinary(subs, templates, #[trigger] body@[i])
        },
        StmtKind::For { initializer, condition, update, body } => {
            &&& stmt_ordinary(subs, templates, *initializer)
            &&& expr_ordinary(subs, templates, condition)
            &&& stmt_ordinary(subs, templates, *update)
            &&& forall|i: int| 0 <= i < body@.len() ==> stmt_ordinary(subs, templates, #[trigger] body@[i])
        },
        StmtKind::Break => true,
        StmtKind::Continue => true,
    }
}

/// The written type `spec`, if any, takes `subs` without error.
pub open spec fn spec_substitutes_ok(subs: Seq<(String, Argument)>, spec: TypeSpec) -> bool {
    spec matches TypeSpec::Explicit(t) ==> substituted_type(subs, t) is Ok
}

/// The iteration binding `b` is not named like a parameter of `subs`, and
/// its written type takes `subs` without error.
pub open spec fn binding_ordinary(subs: Seq<(String, Argument)>, b: IterationBinding) -> bool {
    &&& substitution(subs, b.name@) is None
    &&& spec_substitutes_ok(subs, b.type_spec)
}

/// `d`'s parameters are not named like a parameter of `subs`, its written
/// types take `subs` without error, and its body is `stmts_ordinary`.
pub open spec fn function_ordinary(subs: Seq<(String, Argument)>, templates: Seq<FunctionDefinition>, d: FunctionDefinition) -> bool {
    &&& forall|i: int|
        0 <= i < d.parameters@.len() ==> substitution(subs, (#[trigger] d.parameters@[i]).name@) is None
            && substituted_type(subs, d.parameters@[i].type_ref) is Ok
    &&& (d.return_type matches ReturnTypeRef::Value(t) ==> substituted_type(subs, t) is Ok)
    &&& stmts_ordinary(subs, templates, d.body@)
}

/// `stmt_ordinary` of every statement of `body`.
pub open spec fn stmts_ordinary(subs: Seq<(String, Argument)>, templates: Seq<FunctionDefinition>, body: Seq<Stmt>) -> bool {
    forall|i: int| 0 <= i < body.len() ==> stmt_ordinary(subs, templates, #[trigger] body[i])
}

/// `expr_ordinary` of every default value among `fields`.
pub open spec fn defaults_ordinary(subs: Seq<(String, Argument)>, templates: Seq<FunctionDefinition>, fields: Seq<FieldDefinition>) -> bool {
    forall|i: int| 0 <= i < fields.len() ==> ((#[trigger] fields[i]).default matches Some(v) ==> expr_ordinary(subs, templates, v))
}

/// `item` is no template, and its expressions are `expr_ordinary`.
pub open spec fn item_ordinary(subs: Seq<(String, Argument)>, templates: Seq<FunctionDefinition>, item: Item) -> bool {
    match item {
        Item::ConstantDefinition(d) => expr_ordinary(subs, templates, d.value),
        Item::TypeDefinition(d) => {
            &&& defaults_ordinary(subs, templates, d.fields@)
            &&& d.variants matches Some(vs) ==> forall|i: int|
                0 <= i < vs@.len() ==> defaults_ordinary(subs, templates, (#[trigger] vs@[i]).fields@)
        },
        Item::FunctionDefinition(d) => d.generic_parameters@.len() == 0 && function_ordinary(subs, templates, d),
        Item::Statement(s) => stmt_ordinary(subs, templates, s),
    }
}

/// What a generic parameter stands for inside one instance.
pub enum Argument {
    Type(TypeRef),
    Length(usize),
}

/// The argument of the first substitution for `name`.
pub open spec fn substitution(subs: Seq<(String, Argument)>, name: Seq<char>) -> Option<Argument>
    decreases subs.len(),
{
    if subs.len() == 0 {
        None
    } else if subs[0].0@ == name {
        Some(subs[0].1)
    } else {
        substitution(subs.skip(1), name)
    }
}

/// `ty` with the parameters of `subs` replaced, or the first misuse.
pub open spec fn substituted_type(subs: Seq<(String, Argument)>, ty: TypeRef) -> Result<TypeRef, (Seq<char>, Span)>
    decreases ty,
{
    match ty.kind {
        TypeRefKind::Named(n) => match substitution(subs, n@) {
            Some(Argument::Type(t)) => Ok(TypeRef { kind: t.kind, span: ty.span }),
            Some(Argument::Length(_)) => Err(("length parameter used as a type"@, ty.span)),
            None => Ok(ty),
        },
        TypeRefKind::Array { element, length } => match substituted_type(subs, *element) {
            Ok(e) => Ok(TypeRef { kind: TypeRefKind::Array { element: Box::new(e), length }, span: ty.span }),
            Err(p) => Err(p),
        },
        TypeRefKind::ArrayConstant { element, constant } => match substituted_type(subs, *element) {
            Ok(e) => match substitution(subs, constant.name@) {
                Some(Argument::Length(n)) => Ok(
                    TypeRef { kind: TypeRefKind::Array { element: Box::new(e), length: n }, span: ty.span },
                ),
                Some(Argument::Type(_)) => Err(("type parameter used as an array length"@, constant.span)),
                None => Ok(TypeRef { kind: TypeRefKind::ArrayConstant { element: Box::new(e), constant }, span: ty.span }),
            },
            Err(p) => Err(p),
        },
    }
}

/// With nothing to replace, a written type stays as it is.
proof fn lemma_unsubstituted(ty: TypeRef)
    ensures
        substituted_type(Seq::empty(), ty) == Ok::<TypeRef, (Seq<char>, Span)>(ty),
    decreases ty,
{
    match ty.kind {
        TypeRefKind::Named(_) => {},
        TypeRefKind::Array { element, .. } => lemma_unsubstituted(*element),
        TypeRefKind::ArrayConstant { element, .. } => lemma_unsubstituted(*element),
    }
}

/// The text under which an explicit argument keys an instance, for a
/// parameter that is a length (`length`) or a type; `None` where the
/// argument cannot stand for the parameter.
pub open spec fn argument_text(
    subs: Seq<(String, Argument)>,
    constants: Seq<EvaluatedConstant>,
    length: bool,
    argument: GenericArgument,
) -> Option<Seq<char>> {
    match argument {
        GenericArgument::Length { value, .. } => if length { Some(decimal(value as nat)) } else { None },
        GenericArgument::Type(ty) => {
            if length {
                match ty.kind {
                    TypeRefKind::Named(n) => match substitution(subs, n@) {
                        Some(Argument::Length(v)) => Some(decimal(v as nat)),
                        Some(Argument::Type(_)) => None,
                        None => match constant_length(constants, n@) {
                            Ok(v) => Some(decimal(v as nat)),
                            Err(_) => None,
                        },
                    },
                    _ => None,
                }
            } else {
                match substituted_type(subs, ty) {
                    Ok(t) => match resolved_type(constants, t) {
                        Ok(u) => Some(type_key(u)),
                        Err(_) => None,
                    },
                    Err(_) => None,
                }
            }
        },
    }
}

/// The argument texts of a call whose template has the parameters `parameters`.
pub open spec fn call_texts(
    subs: Seq<(String, Argument)>,
    constants: Seq<EvaluatedConstant>,
    parameters: Seq<GenericParameter>,
    arguments: Seq<GenericArgument>,
) -> Seq<Seq<char>> {
    Seq::new(
        arguments.len(),
        |i: int|
            match argument_text(subs, constants, parameters[i].length, arguments[i]) {
                Some(t) => t,
                None => Seq::empty(),
            },
    )
}

/// The generic parameters of the first template named `name`.
pub open spec fn template_parameters(templates: Seq<FunctionDefinition>, name: Seq<char>) -> Seq<GenericParameter>
    decreases templates.len(),
{
    if templates.len() == 0 {
        Seq::empty()
    } else if templates[0].name@ == name {
        templates[0].generic_parameters@
    } else {
        template_parameters(templates.skip(1), name)
    }
}

/// The first template named `name`.
pub open spec fn template_of(templates: Seq<FunctionDefinition>, name: Seq<char>) -> FunctionDefinition
    decreases templates.len(),
{
    if templates.len() <= 1 || templates[0].name@ == name {
        templates[0]
    } else {
        template_of(templates.skip(1), name)
    }
}

/// `argument` meets a parameter that takes a length if `length`, else a
/// type: it resolves, and a type argument names only known types.
pub open spec fn argument_ok(
    type_names: Seq<String>,
    subs: Seq<(String, Argument)>,
    constants: Seq<EvaluatedConstant>,
    length: bool,
    argument: GenericArgument,
) -> bool {
    &&& argument_text(subs, constants, length, argument) is Some
    &&& match argument {
        GenericArgument::Type(ty) => !length ==> concrete_problem(
            type_names,
            resolved_type(constants, substituted_type(subs, ty)->Ok_0)->Ok_0,
        ) is None,
        GenericArgument::Length { .. } => true,
    }
}

/// What a resolved argument substitutes for its parameter.
pub open spec fn argument_value(
    subs: Seq<(String, Argument)>,
    constants: Seq<EvaluatedConstant>,
    length: bool,
    argument: GenericArgument,
) -> Argument {
    match argument {
        GenericArgument::Length { value, .. } => Argument::Length(value),
        GenericArgument::Type(ty) => if length {
            match ty.kind {
                TypeRefKind::Named(n) => match substitution(subs, n@) {
                    Some(Argument::Length(v)) => Argument::Length(v),
                    _ => Argument::Length(constant_length(constants, n@)->Ok_0),
                },
                _ => Argument::Length(0),
            }
        } else {
            Argument::Type(resolved_type(constants, substituted_type(subs, ty)->Ok_0)->Ok_0)
        },
    }
}

/// The call of the template `name` with `arguments` names a template,
/// gives it as many arguments as it has parameters, and each resolves.
pub open spec fn valid_call(
    templates: Seq<FunctionDefinition>,
    type_names: Seq<String>,
    subs: Seq<(String, Argument)>,
    constants: Seq<EvaluatedConstant>,
    name: Seq<char>,
    arguments: Seq<GenericArgument>,
) -> bool {
    let parameters = template_parameters(templates, name);
    &&& names_template(templates, name)
    &&& parameters.len() == arguments.len()
    &&& forall|i: int| 0 <= i < arguments.len() ==> argument_ok(type_names, subs, constants, parameters[i].length, #[trigger] arguments[i])
}

/// The substitutions that a valid call makes for the template's parameters.
pub open spec fn call_substitutions(
    subs: Seq<(String, Argument)>,
    constants: Seq<EvaluatedConstant>,
    parameters: Seq<GenericParameter>,
    arguments: Seq<GenericArgument>,
) -> Seq<(String, Argument)> {
    Seq::new(parameters.len(), |i: int| (parameters[i].name, argument_value(subs, constants, parameters[i].length, arguments[i])))
}

/// Some recorded instantiation is named `n` and instantiates `template`
/// with arguments whose texts are `arguments`.
pub open spec fn instance_for(
    origins: Seq<(String, GenericOrigin)>,
    n: Seq<char>,
    template: Seq<char>,
    arguments: Seq<Seq<char>>,
) -> bool {
    exists|idx: int|
        0 <= idx < origins.len() && (#[trigger] origins[idx]).0@ == n && origins[idx].1.template@ == template
            && texts(origins[idx].1.arguments@) == arguments
}

/// A call of the template `name` with a length argument for each of its
/// parameters, all of which take lengths.
pub open spec fn length_call(templates: Seq<FunctionDefinition>, name: Seq<char>, arguments: Seq<GenericArgument>) -> bool {
    let parameters = template_parameters(templates, name);
    &&& names_template(templates, name)
    &&& parameters.len() == arguments.len()
    &&& forall|i: int| 0 <= i < arguments.len() ==> (#[trigger] arguments[i]) is Length && parameters[i].length
}

/// `origins[i]` records `template` with argument texts `arguments`.
pub open spec fn origin_of(origins: Seq<(String, GenericOrigin)>, i: int, template: Seq<char>, arguments: Seq<Seq<char>>) -> bool {
    0 <= i < origins.len() && origins[i].1.template@ == template && texts(origins[i].1.arguments@) == arguments
}

/// `origins[i]` is the first record of `template` with argument texts `arguments`.
pub open spec fn first_origin(origins: Seq<(String, GenericOrigin)>, i: int, template: Seq<char>, arguments: Seq<Seq<char>>) -> bool {
    &&& origin_of(origins, i, template, arguments)
    &&& forall|j: int| 0 <= j < i ==> !origin_of(origins, j, template, arguments)
}

/// The name of the instance recorded at position `index` for `template`.
pub open spec fn instance_name_of(index: nat, template: Seq<char>) -> Seq<char> {
    "$generic_"@ + decimal(index) + "_"@ + template
}

/// A call of the template `name`, with a length for each of its parameters
/// and outside that template's own instantiation, whose argument texts
/// were instantiated before.
pub open spec fn reuses_instance(
    templates: Seq<FunctionDefinition>,
    origins: Seq<(String, GenericOrigin)>,
    active: Seq<String>,
    name: Seq<char>,
    subs: Seq<(String, Argument)>,
    constants: Seq<EvaluatedConstant>,
    arguments: Seq<GenericArgument>,
) -> bool {
    let parameters = template_parameters(templates, name);
    &&& names_template(templates, name)
    &&& parameters.len() == arguments.len()
    &&& forall|i: int| 0 <= i < arguments.len() ==> (#[trigger] arguments[i]) is Length && parameters[i].length
    &&& forall|i: int| 0 <= i < active.len() ==> (#[trigger] active[i])@ != name
    &&& exists|i: int|
        0 <= i < origins.len() && (#[trigger] origins[i]).1.template@ == name && texts(origins[i].1.arguments@)
            == call_texts(subs, constants, parameters, arguments)
}

/// Where `ty` fails to be a built-in type, a defined type or an array of
/// such, if it does.
pub open spec fn concrete_problem(type_names: Seq<String>, ty: TypeRef) -> Option<Span>
    decreases ty,
{
    match ty.kind {
        TypeRefKind::Named(n) => {
            if builtin_named(n@) is Some || exists|i: int| 0 <= i < type_names.len() && (#[trigger] type_names[i])@ == n@ {
                None
            } else {
                Some(ty.span)
            }
        },
        TypeRefKind::Array { element, .. } => concrete_problem(type_names, *element),
        TypeRefKind::ArrayConstant { .. } => Some(ty.span),
    }
}

/// How a concrete type argument is written in instance keys: its name, or
/// `[element; length]`.
pub open spec fn type_key(ty: TypeRef) -> Seq<char>
    decreases ty,
{
    match ty.kind {
        TypeRefKind::Named(n) => n@,
        TypeRefKind::Array { element, length } => "["@ + type_key(*element) + "; "@ + decimal(length as nat) + "]"@,
        TypeRefKind::ArrayConstant { .. } => Seq::empty(),
    }
}

/// The name of the instance made at position `index`.
pub open spec fn instance_name(index: nat, template: Seq<char>) -> Seq<char> {
    "$generic_"@ + decimal(index) + "_"@ + template
}

/// Instances recorded at different positions have different names, and
/// an instance's name gives its template back.
pub proof fn lemma_instance_names_distinct(i1: nat, t1: Seq<char>, i2: nat, t2: Seq<char>)
    ensures
        instance_name(i1, t1) == instance_name(i2, t2) ==> i1 == i2 && t1 == t2,
{
    if instance_name(i1, t1) == instance_name(i2, t2) {
        crate::text::lemma_numbered_names_distinct("$generic_"@, i1, t1, i2, t2);
    }
}

/// Some recorded instantiation is named `name`.
pub open spec fn names_origin(origins: Seq<(String, GenericOrigin)>, name: Seq<char>) -> bool {
    exists|j: int| 0 <= j < origins.len() && (#[trigger] origins[j]).0@ == name
}

/// Some template is named `name`.
pub open spec fn names_template(templates: Seq<FunctionDefinition>, name: Seq<char>) -> bool {
    exists|t: int| 0 <= t < templates.len() && (#[trigger] templates[t]).name@ == name
}

/// The recorded instantiations are numbered by position, keyed without
/// repetition, made from templates, and each has a call site with one
/// range per argument.
pub open spec fn origins_well_formed(
    origins: Seq<(String, GenericOrigin)>,
    templates: Seq<FunctionDefinition>,
) -> bool {
    &&& origins.len() <= 256
    &&& forall|i: int| 0 <= i < origins.len() ==> {
        let o = (#[trigger] origins[i]).1;
        &&& origins[i].0@ == instance_name(i as nat, o.template@)
        &&& names_template(templates, o.template@)
        &&& o.calls@.len() > 0
        &&& forall|c: int| 0 <= c < o.calls@.len()
            ==> (#[trigger] o.calls@[c]).argument_spans@.len() == o.arguments@.len()
    }
    &&& forall|i: int, j: int| 0 <= i < j < origins.len()
        ==> !same_instantiation((#[trigger] origins[i]).1, (#[trigger] origins[j]).1)
}

/// Two instantiations of one template with the same argument list.
pub open spec fn same_instantiation(a: GenericOrigin, b: GenericOrigin) -> bool {
    a.template@ == b.template@ && texts(a.arguments@) == texts(b.arguments@)
}

/// Every instantiation recorded in `a` is still recorded in `b`, under the
/// same name, template and arguments.
/// `name` is among the templates being instantiated.
pub open spec fn is_active(active: Seq<String>, name: Seq<char>) -> bool {
    exists|a: int| 0 <= a < active.len() && (#[trigger] active[a])@ == name
}

pub open spec fn origins_grow(a: Seq<(String, GenericOrigin)>, b: Seq<(String, GenericOrigin)>) -> bool {
    &&& b.len() >= a.len()
    &&& forall|j: int| 0 <= j < a.len() ==> {
        &&& (#[trigger] b[j]).0 == a[j].0
        &&& b[j].1.template == a[j].1.template
        &&& b[j].1.arguments == a[j].1.arguments
    }
}

/// `b` is the optional written type `a` with the generic parameters replaced.
pub open spec fn substitutes_spec(subs: Seq<(String, Argument)>, a: TypeSpec, b: TypeSpec) -> bool {
    match a {
        TypeSpec::Explicit(t) => (b matches TypeSpec::Explicit(u) && substituted_type(subs, t) == Ok::<
            TypeRef,
            (Seq<char>, Span),
        >(u)),
        TypeSpec::Infer => b is Infer,
    }
}

/// `b` is the expression `a` instantiated: each generic call becomes a
/// call of the recorded instance of its template for its argument list, a
/// length parameter becomes its value as an `i64` literal, conversion
/// targets have their parameters replaced, and the rest is kept.
pub open spec fn instantiates_expr(
    subs: Seq<(String, Argument)>,
    constants: Seq<EvaluatedConstant>,
    templates: Seq<FunctionDefinition>,
    origins: Seq<(String, GenericOrigin)>,
    a: Expr,
    b: Expr,
) -> bool
    decreases a,
{
    &&& a.span == b.span
    &&& match a.kind {
        ExprKind::GenericCall(call) => (b.kind matches ExprKind::Call { name: n, name_span: s, arguments: args }
            && s == call.name_span && instance_for(
            origins,
            n@,
            call.name@,
            call_texts(subs, constants, template_parameters(templates, call.name@), call.generic_arguments@),
        ) && args@.len() == call.arguments@.len() && forall|i: int|
            0 <= i < call.arguments@.len() ==> instantiates_expr(
                subs,
                constants,
                templates,
                origins,
                #[trigger] call.arguments@[i],
                args@[i],
            )),
        ExprKind::Variable(name) => match substitution(subs, name@) {
            Some(Argument::Length(v)) => (b.kind matches ExprKind::Integer(literal) && literal.spec_digits() == decimal(
                v as nat,
            ) && literal.spec_explicit_type() == Some(IntegerType::I64)),
            Some(Argument::Type(_)) => false,
            None => b.kind == a.kind,
        },
        ExprKind::Convert { mode, target, value, syntax } => (b.kind matches ExprKind::Convert {
            mode: m,
            target: t,
            value: v,
            syntax: x,
        } && m == mode && x == syntax && substituted_type(subs, target) == Ok::<TypeRef, (Seq<char>, Span)>(t)
            && instantiates_expr(subs, constants, templates, origins, *value, *v)),
        ExprKind::Construct { type_path, type_path_span, base, fields } => (b.kind matches ExprKind::Construct {
            type_path: p,
            type_path_span: ps,
            base: bb,
            fields: fs,
        } && p@ == type_path@ && ps == type_path_span && (match base {
            Some(x) => (bb matches Some(y) && instantiates_expr(subs, constants, templates, origins, *x, *y)),
            None => bb is None,
        }) && fs@.len() == fields@.len() && forall|i: int|
            0 <= i < fields@.len() ==> fs@[i].name@ == (#[trigger] fields@[i]).name@ && instantiates_expr(
                subs,
                constants,
                templates,
                origins,
                fields@[i].value,
                fs@[i].value,
            )),
        ExprKind::Call { name, name_span, arguments } => (b.kind matches ExprKind::Call {
            name: n,
            name_span: s,
            arguments: args,
        } && n@ == name@ && s == name_span && args@.len() == arguments@.len() && forall|i: int|
            0 <= i < arguments@.len() ==> instantiates_expr(
                subs,
                constants,
                templates,
                origins,
                #[trigger] arguments@[i],
                args@[i],
            )),
        ExprKind::Array(values) => (b.kind matches ExprKind::Array(vs) && vs@.len() == values@.len() && forall|i: int|
            0 <= i < values@.len() ==> instantiates_expr(subs, constants, templates, origins, #[trigger] values@[i], vs@[i])),
        ExprKind::Unary { op, value } => (b.kind matches ExprKind::Unary { op: o, value: v } && o == op
            && instantiates_expr(subs, constants, templates, origins, *value, *v)),
        ExprKind::FieldAccess { base, field_name, field_name_span } => (b.kind matches ExprKind::FieldAccess {
            base: x,
            field_name: f,
            field_name_span: fs,
        } && f@ == field_name@ && fs == field_name_span && instantiates_expr(subs, constants, templates, origins, *base, *x)),
        ExprKind::Binary { op, left, right } => (b.kind matches ExprKind::Binary { op: o, left: l, right: r } && o == op
            && instantiates_expr(subs, constants, templates, origins, *left, *l) && instantiates_expr(
            subs,
            constants,
            templates,
            origins,
            *right,
            *r,
        )),
        ExprKind::Logical { op, left, right } => (b.kind matches ExprKind::Logical { op: o, left: l, right: r } && o
            == op && instantiates_expr(subs, constants, templates, origins, *left, *l) && instantiates_expr(
            subs,
            constants,
            templates,
            origins,
            *right,
            *r,
        )),
        ExprKind::Index { base, index } => (b.kind matches ExprKind::Index { base: x, index: y } && instantiates_expr(
            subs,
            constants,
            templates,
            origins,
            *base,
            *x,
        ) && instantiates_expr(subs, constants, templates, origins, *index, *y)),
        _ => b.kind == a.kind,
    }
}

proof fn lemma_instance_grows(
    o1: Seq<(String, GenericOrigin)>,
    o2: Seq<(String, GenericOrigin)>,
    n: Seq<char>,
    template: Seq<char>,
    arguments: Seq<Seq<char>>,
)
    requires
        origins_grow(o1, o2),
        instance_for(o1, n, template, arguments),
    ensures
        instance_for(o2, n, template, arguments),
{
    let idx = choose|idx: int|
        0 <= idx < o1.len() && (#[trigger] o1[idx]).0@ == n && o1[idx].1.template@ == template
            && texts(o1[idx].1.arguments@) == arguments;
    assert(o2[idx].0 == o1[idx].0);
}

proof fn lemma_expr_grows(
    subs: Seq<(String, Argument)>,
    constants: Seq<EvaluatedConstant>,
    templates: Seq<FunctionDefinition>,
    o1: Seq<(String, GenericOrigin)>,
    o2: Seq<(String, GenericOrigin)>,
    a: Expr,
    b: Expr,
)
    requires
        origins_grow(o1, o2),
        instantiates_expr(subs, constants, templates, o1, a, b),
    ensures
        instantiates_expr(subs, constants, templates, o2, a, b),
    decreases a,
{
    match a.kind {
        ExprKind::GenericCall(call) => {
            let args = b.kind->Call_arguments;
            lemma_instance_grows(
                o1,
                o2,
                b.kind->Call_name@,
                call.name@,
                call_texts(subs, constants, template_parameters(templates, call.name@), call.generic_arguments@),
            );
            assert forall|i: int| 0 <= i < call.arguments@.len() implies instantiates_expr(
                subs,
                constants,
                templates,
                o2,
                #[trigger] call.arguments@[i],
                args@[i],
            ) by {
                lemma_expr_grows(subs, constants, templates, o1, o2, call.arguments@[i], args@[i]);
            }
        },
        ExprKind::Convert { value, .. } => {
            lemma_expr_grows(subs, constants, templates, o1, o2, *value, *b.kind->Convert_value);
        },
        ExprKind::Construct { base, fields, .. } => {
            let fs = b.kind->Construct_fields;
            if let Some(x) = base {
                lemma_expr_grows(subs, constants, templates, o1, o2, *x, *b.kind->Construct_base->Some_0);
            }
            assert forall|i: int| 0 <= i < fields@.len() implies fs@[i].name@ == (#[trigger] fields@[i]).name@
                && instantiates_expr(subs, constants, templates, o2, fields@[i].value, fs@[i].value) by {
                lemma_expr_grows(subs, constants, templates, o1, o2, fields@[i].value, fs@[i].value);
            }
        },
        ExprKind::Call { arguments, .. } => {
            let args = b.kind->Call_arguments;
            assert forall|i: int| 0 <= i < arguments@.len() implies instantiates_expr(
                subs,
                constants,
                templates,
                o2,
                #[trigger] arguments@[i],
                args@[i],
            ) by {
                lemma_expr_grows(subs, constants, templates, o1, o2, arguments@[i], args@[i]);
            }
        },
        ExprKind::Array(values) => {
            let vs = b.kind->Array_0;
            assert forall|i: int| 0 <= i < values@.len() implies instantiates_expr(
                subs,
                constants,
                templates,
                o2,
                #[trigger] values@[i],
                vs@[i],
            ) by {
                lemma_expr_grows(subs, constants, templates, o1, o2, values@[i], vs@[i]);
            }
        },
        ExprKind::Unary { value, .. } => {
            lemma_expr_grows(subs, constants, templates, o1, o2, *value, *b.kind->Unary_value);
        },
        ExprKind::FieldAccess { base, .. } => {
            lemma_expr_grows(subs, constants, templates, o1, o2, *base, *b.kind->FieldAccess_base);
        },
        ExprKind::Binary { left, right, .. } => {
            lemma_expr_grows(subs, constants, templates, o1, o2, *left, *b.kind->Binary_left);
            lemma_expr_grows(subs, constants, templates, o1, o2, *right, *b.kind->Binary_right);
        },
        ExprKind::Logical { left, right, .. } => {
            lemma_expr_grows(subs, constants, templates, o1, o2, *left, *b.kind->Logical_left);
            lemma_expr_grows(subs, constants, templates, o1, o2, *right, *b.kind->Logical_right);
        },
        ExprKind::Index { base, index } => {
            lemma_expr_grows(subs, constants, templates, o1, o2, *base, *b.kind->Index_base);
            lemma_expr_grows(subs, constants, templates, o1, o2, *index, *b.kind->Index_index);
        },
        _ => {},
    }
}

/// `b` is the iteration binding `a` with its written type's parameters replaced.
pub open spec fn substitutes_binding(subs: Seq<(String, Argument)>, a: IterationBinding, b: IterationBinding) -> bool {
    &&& b.mutable == a.mutable
    &&& b.name@ == a.name@
    &&& b.span == a.span
    &&& substitutes_spec(subs, a.type_spec, b.type_spec)
}

/// `b` is the statement `a` instantiated: its expressions as
/// `instantiates_expr` says, its written types with the parameters
/// replaced, and its shape kept.
pub open spec fn instantiates_stmt(
    subs: Seq<(String, Argument)>,
    constants: Seq<EvaluatedConstant>,
    templates: Seq<FunctionDefinition>,
    origins: Seq<(String, GenericOrigin)>,
    a: Stmt,
    b: Stmt,
) -> bool
    decreases a,
{
    &&& a.span == b.span
    &&& match a.kind {
        StmtKind::Block(body) => (b.kind matches StmtKind::Block(out) && out@.len() == body@.len() && forall|i: int|
            0 <= i < body@.len() ==> instantiates_stmt(subs, constants, templates, origins, #[trigger] body@[i], out@[i])),
        StmtKind::Match { value, arms } => (b.kind matches StmtKind::Match { value: v, arms: out } && instantiates_expr(
            subs,
            constants,
            templates,
            origins,
            value,
            v,
        ) && out@.len() == arms@.len() && forall|i: int|
            0 <= i < arms@.len() ==> {
                &&& out@[i].variant@ == (#[trigger] arms@[i]).variant@
                &&& out@[i].body@.len() == arms@[i].body@.len()
                &&& forall|j: int|
                    0 <= j < arms@[i].body@.len() ==> instantiates_stmt(
                        subs,
                        constants,
                        templates,
                        origins,
                        #[trigger] arms@[i].body@[j],
                        out@[i].body@[j],
                    )
            }),
        StmtKind::Binding { mutable, name, type_spec, value } => (b.kind matches StmtKind::Binding {
            mutable: m,
            name: n,
            type_spec: t,
            value: v,
        } && m == mutable && n@ == name@ && substitutes_spec(subs, type_spec, t) && instantiates_expr(
            subs,
            constants,
            templates,
            origins,
            value,
            v,
        )),
        StmtKind::Assignment { target, value } => (b.kind matches StmtKind::Assignment { target: t, value: v } && t.name@
            == target.name@ && t.name_span == target.name_span && t.span == target.span && t.projections@.len()
            == target.projections@.len() && (forall|i: int|
            0 <= i < target.projections@.len() ==> instantiates_expr(
                subs,
                constants,
                templates,
                origins,
                (#[trigger] target.projections@[i])->index,
                t.projections@[i]->index,
            )) && instantiates_expr(subs, constants, templates, origins, value, v)),
        StmtKind::Print { value } => (b.kind matches StmtKind::Print { value: v } && instantiates_expr(
            subs,
            constants,
            templates,
            origins,
            value,
            v,
        )),
        StmtKind::Call { value } => (b.kind matches StmtKind::Call { value: v } && instantiates_expr(
            subs,
            constants,
            templates,
            origins,
            value,
            v,
        )),
        StmtKind::Return { value } => (b.kind matches StmtKind::Return { value: v } && match value {
            Some(x) => (v matches Some(y) && instantiates_expr(subs, constants, templates, origins, x, y)),
            None => v is None,
        }),
        StmtKind::If { condition, then_body, else_body } => (b.kind matches StmtKind::If {
            condition: c,
            then_body: t,
            else_body: e,
        } && instantiates_expr(subs, constants, templates, origins, condition, c) && t@.len() == then_body@.len()
            && e@.len() == else_body@.len() && (forall|i: int|
            0 <= i < then_body@.len() ==> instantiates_stmt(
                subs,
                constants,
                templates,
                origins,
                #[trigger] then_body@[i],
                t@[i],
            )) && (forall|i: int|
            0 <= i < else_body@.len() ==> instantiates_stmt(
                subs,
                constants,
                templates,
                origins,
                #[trigger] else_body@[i],
                e@[i],
            ))),
        StmtKind::While { condition, body } => (b.kind matches StmtKind::While { condition: c, body: out }
            && instantiates_expr(subs, constants, templates, origins, condition, c) && out@.len() == body@.len()
            && forall|i: int|
            0 <= i < body@.len() ==> instantiates_stmt(subs, constants, templates, origins, #[trigger] body@[i], out@[i])),
        StmtKind::For { initializer, condition, update, body } => (b.kind matches StmtKind::For {
            initializer: i2,
            condition: c,
            update: u,
            body: out,
        } && instantiates_stmt(subs, constants, templates, origins, *initializer, *i2) && instantiates_expr(
            subs,
            constants,
            templates,
            origins,
            condition,
            c,
        ) && instantiates_stmt(subs, constants, templates, origins, *update, *u) && out@.len() == body@.len()
            && forall|i: int|
            0 <= i < body@.len() ==> instantiates_stmt(subs, constants, templates, origins, #[trigger] body@[i], out@[i])),
        StmtKind::ForEach { index, element, value, body, header_span } => (b.kind matches StmtKind::ForEach {
            index: i2,
            element: e2,
            value: v,
            body: out,
            header_span: h,
        } && h == header_span && substitutes_binding(subs, element, e2) && (match index {
            Some(x) => (i2 matches Some(y) && substitutes_binding(subs, x, y)),
            None => i2 is None,
        }) && instantiates_expr(subs, constants, templates, origins, value, v) && out@.len() == body@.len()
            && forall|i: int|
            0 <= i < body@.len() ==> instantiates_stmt(subs, constants, templates, origins, #[trigger] body@[i], out@[i])),
        StmtKind::Break => b.kind is Break,
        StmtKind::Continue => b.kind is Continue,
    }
}

proof fn lemma_exprs_grow(
    subs: Seq<(String, Argument)>,
    constants: Seq<EvaluatedConstant>,
    templates: Seq<FunctionDefinition>,
    o1: Seq<(String, GenericOrigin)>,
    o2: Seq<(String, GenericOrigin)>,
    a: Seq<Expr>,
    b: Seq<Expr>,
    n: int,
)
    requires
        origins_grow(o1, o2),
        n <= a.len(),
        n <= b.len(),
        forall|i: int| 0 <= i < n ==> instantiates_expr(subs, constants, templates, o1, #[trigger] a[i], b[i]),
    ensures
        forall|i: int| 0 <= i < n ==> instantiates_expr(subs, constants, templates, o2, #[trigger] a[i], b[i]),
{
    assert forall|i: int| 0 <= i < n implies instantiates_expr(subs, constants, templates, o2, #[trigger] a[i], b[i]) by {
        lemma_expr_grows(subs, constants, templates, o1, o2, a[i], b[i]);
    }
}

proof fn lemma_stmt_grows(
    subs: Seq<(String, Argument)>,
    constants: Seq<EvaluatedConstant>,
    templates: Seq<FunctionDefinition>,
    o1: Seq<(String, GenericOrigin)>,
    o2: Seq<(String, GenericOrigin)>,
    a: Stmt,
    b: Stmt,
)
    requires
        origins_grow(o1, o2),
        instantiates_stmt(subs, constants, templates, o1, a, b),
    ensures
        instantiates_stmt(subs, constants, templates, o2, a, b),
    decreases a,
{
    match a.kind {
        StmtKind::Block(body) => {
            let out = b.kind->Block_0;
            assert forall|i: int| 0 <= i < body@.len() implies instantiates_stmt(
                subs,
                constants,
                templates,
                o2,
                #[trigger] body@[i],
                out@[i],
            ) by {
                lemma_stmt_grows(subs, constants, templates, o1, o2, body@[i], out@[i]);
            }
        },
        StmtKind::Match { value, arms } => {
            let out = b.kind->Match_arms;
            lemma_expr_grows(subs, constants, templates, o1, o2, value, b.kind->Match_value);
            assert forall|i: int| 0 <= i < arms@.len() implies {
                &&& out@[i].variant@ == (#[trigger] arms@[i]).variant@
                &&& out@[i].body@.len() == arms@[i].body@.len()
                &&& forall|j: int|
                    0 <= j < arms@[i].body@.len() ==> instantiates_stmt(
                        subs,
                        constants,
                        templates,
                        o2,
                        #[trigger] arms@[i].body@[j],
                        out@[i].body@[j],
                    )
            } by {
                assert forall|j: int| 0 <= j < arms@[i].body@.len() implies instantiates_stmt(
                    subs,
                    constants,
                    templates,
                    o2,
                    #[trigger] arms@[i].body@[j],
                    out@[i].body@[j],
                ) by {
                    lemma_stmt_grows(subs, constants, templates, o1, o2, arms@[i].body@[j], out@[i].body@[j]);
                }
            }
        },
        StmtKind::Binding { value, .. } => {
            lemma_expr_grows(subs, constants, templates, o1, o2, value, b.kind->Binding_value);
        },
        StmtKind::Assignment { target, value } => {
            let t = b.kind->Assignment_target;
            lemma_expr_grows(subs, constants, templates, o1, o2, value, b.kind->Assignment_value);
            assert forall|i: int| 0 <= i < target.projections@.len() implies instantiates_expr(
                subs,
                constants,
                templates,
                o2,
                (#[trigger] target.projections@[i])->index,
                t.projections@[i]->index,
            ) by {
                lemma_expr_grows(subs, constants, templates, o1, o2, target.projections@[i]->index, t.projections@[i]->index);
            }
        },
        StmtKind::Print { value } => {
            lemma_expr_grows(subs, constants, templates, o1, o2, value, b.kind->Print_value);
        },
        StmtKind::Call { value } => {
            lemma_expr_grows(subs, constants, templates, o1, o2, value, b.kind->Call_value);
        },
        StmtKind::Return { value } => {
            if let Some(x) = value {
                lemma_expr_grows(subs, constants, templates, o1, o2, x, b.kind->Return_value->Some_0);
            }
        },
        StmtKind::If { condition, then_body, else_body } => {
            let t = b.kind->If_then_body;
            let e = b.kind->If_else_body;
            lemma_expr_grows(subs, constants, templates, o1, o2, condition, b.kind->If_condition);
            assert forall|i: int| 0 <= i < then_body@.len() implies instantiates_stmt(
                subs,
                constants,
                templates,
                o2,
                #[trigger] then_body@[i],
                t@[i],
            ) by {
                lemma_stmt_grows(subs, constants, templates, o1, o2, then_body@[i], t@[i]);
            }
            assert forall|i: int| 0 <= i < else_body@.len() implies instantiates_stmt(
                subs,
                constants,
                templates,
                o2,
                #[trigger] else_body@[i],
                e@[i],
            ) by {
                lemma_stmt_grows(subs, constants, templates, o1, o2, else_body@[i], e@[i]);
            }
        },
        StmtKind::While { condition, body } => {
            let out = b.kind->While_body;
            lemma_expr_grows(subs, constants, templates, o1, o2, condition, b.kind->While_condition);
            assert forall|i: int| 0 <= i < body@.len() implies instantiates_stmt(
                subs,
                constants,
                templates,
                o2,
                #[trigger] body@[i],
                out@[i],
            ) by {
                lemma_stmt_grows(subs, constants, templates, o1, o2, body@[i], out@[i]);
            }
        },
        StmtKind::For { initializer, condition, update, body } => {
            let out = b.kind->For_body;
            lemma_stmt_grows(subs, constants, templates, o1, o2, *initializer, *b.kind->For_initializer);
            lemma_expr_grows(subs, constants, templates, o1, o2, condition, b.kind->For_condition);
            lemma_stmt_grows(subs, constants, templates, o1, o2, *update, *b.kind->For_update);
            assert forall|i: int| 0 <= i < body@.len() implies instantiates_stmt(
                subs,
                constants,
                templates,
                o2,
                #[trigger] body@[i],
                out@[i],
            ) by {
                lemma_stmt_grows(subs, constants, templates, o1, o2, body@[i], out@[i]);
            }
        },
        StmtKind::ForEach { value, body, .. } => {
            let out = b.kind->ForEach_body;
            lemma_expr_grows(subs, constants, templates, o1, o2, value, b.kind->ForEach_value);
            assert forall|i: int| 0 <= i < body@.len() implies instantiates_stmt(
                subs,
                constants,
                templates,
                o2,
                #[trigger] body@[i],
                out@[i],
            ) by {
                lemma_stmt_grows(subs, constants, templates, o1, o2, body@[i], out@[i]);
            }
        },
        _ => {},
    }
}

proof fn lemma_stmts_grow(
    subs: Seq<(String, Argument)>,
    constants: Seq<EvaluatedConstant>,
    templates: Seq<FunctionDefinition>,
    o1: Seq<(String, GenericOrigin)>,
    o2: Seq<(String, GenericOrigin)>,
    a: Seq<Stmt>,
    b: Seq<Stmt>,
    n: int,
)
    requires
        origins_grow(o1, o2),
        n <= a.len(),
        n <= b.len(),
        forall|i: int| 0 <= i < n ==> instantiates_stmt(subs, constants, templates, o1, #[trigger] a[i], b[i]),
    ensures
        forall|i: int| 0 <= i < n ==> instantiates_stmt(subs, constants, templates, o2, #[trigger] a[i], b[i]),
{
    assert forall|i: int| 0 <= i < n implies instantiates_stmt(subs, constants, templates, o2, #[trigger] a[i], b[i]) by {
        lemma_stmt_grows(subs, constants, templates, o1, o2, a[i], b[i]);
    }
}

/// `b` is the function `a` instantiated: parameter types and the return
/// type with the parameters replaced, the body as `instantiates_stmt` says.
pub open spec fn instantiates_function(
    subs: Seq<(String, Argument)>,
    constants: Seq<EvaluatedConstant>,
    templates: Seq<FunctionDefinition>,
    origins: Seq<(String, GenericOrigin)>,
    a: FunctionDefinition,
    b: FunctionDefinition,
) -> bool {
    &&& b.name == a.name
    &&& b.name_span == a.name_span
    &&& b.span == a.span
    &&& b.parameters@.len() == a.parameters@.len()
    &&& forall|i: int| 0 <= i < a.parameters@.len() ==> {
        &&& b.parameters@[i].name@ == (#[trigger] a.parameters@[i]).name@
        &&& substituted_type(subs, a.parameters@[i].type_ref) == Ok::<TypeRef, (Seq<char>, Span)>(b.parameters@[i].type_ref)
    }
    &&& match a.return_type {
        ReturnTypeRef::Void(s) => b.return_type == ReturnTypeRef::Void(s),
        ReturnTypeRef::Value(t) => (b.return_type matches ReturnTypeRef::Value(u) && substituted_type(subs, t) == Ok::<
            TypeRef,
            (Seq<char>, Span),
        >(u)),
    }
    &&& b.body@.len() == a.body@.len()
    &&& forall|i: int| 0 <= i < a.body@.len() ==> instantiates_stmt(subs, constants, templates, origins, #[trigger] a.body@[i], b.body@[i])
}

/// `b` lists the fields `a` with their default values instantiated.
pub open spec fn instantiates_fields(
    constants: Seq<EvaluatedConstant>,
    templates: Seq<FunctionDefinition>,
    origins: Seq<(String, GenericOrigin)>,
    a: Seq<FieldDefinition>,
    b: Seq<FieldDefinition>,
) -> bool {
    &&& b.len() == a.len()
    &&& forall|i: int| 0 <= i < a.len() ==> {
        &&& b[i].name@ == (#[trigger] a[i]).name@
        &&& b[i].type_ref == a[i].type_ref
        &&& match a[i].default {
            Some(x) => (b[i].default matches Some(y) && instantiates_expr(Seq::empty(), constants, templates, origins, x, y)),
            None => b[i].default is None,
        }
    }
}

/// `b` is the top-level item `a` (not a template) instantiated: what it
/// defines keeps its name and type, and every value, default and body is
/// instantiated as `instantiates_expr` and `instantiates_stmt` say, with no
/// parameters in scope.
pub open spec fn instantiates_item(
    constants: Seq<EvaluatedConstant>,
    templates: Seq<FunctionDefinition>,
    origins: Seq<(String, GenericOrigin)>,
    a: Item,
    b: Item,
) -> bool {
    match a {
        Item::ConstantDefinition(d) => (b matches Item::ConstantDefinition(e) && e.name@ == d.name@ && e.name_span
            == d.name_span && e.span == d.span && e.type_ref == d.type_ref && instantiates_expr(
            Seq::empty(),
            constants,
            templates,
            origins,
            d.value,
            e.value,
        )),
        Item::TypeDefinition(d) => (b matches Item::TypeDefinition(e) && e.name@ == d.name@ && e.name_span == d.name_span
            && e.span == d.span && instantiates_fields(constants, templates, origins, d.fields@, e.fields@) && match d.variants {
            Some(vs) => (e.variants matches Some(ws) && ws@.len() == vs@.len() && forall|i: int|
                0 <= i < vs@.len() ==> ws@[i].name@ == (#[trigger] vs@[i]).name@ && instantiates_fields(
                    constants,
                    templates,
                    origins,
                    vs@[i].fields@,
                    ws@[i].fields@,
                )),
            None => e.variants is None,
        }),
        Item::FunctionDefinition(d) => (b matches Item::FunctionDefinition(e) && e.generic_parameters
            == d.generic_parameters && instantiates_function(Seq::empty(), constants, templates, origins, d, e)),
        Item::Statement(st) => (b matches Item::Statement(t) && instantiates_stmt(
            Seq::empty(),
            constants,
            templates,
            origins,
            st,
            t,
        )),
    }
}

proof fn lemma_fields_grow(
    constants: Seq<EvaluatedConstant>,
    templates: Seq<FunctionDefinition>,
    o1: Seq<(String, GenericOrigin)>,
    o2: Seq<(String, GenericOrigin)>,
    a: Seq<FieldDefinition>,
    b: Seq<FieldDefinition>,
)
    requires
        origins_grow(o1, o2),
        instantiates_fields(constants, templates, o1, a, b),
    ensures
        instantiates_fields(constants, templates, o2, a, b),
{
    assert forall|i: int| 0 <= i < a.len() implies {
        &&& b[i].name@ == (#[trigger] a[i]).name@
        &&& b[i].type_ref == a[i].type_ref
        &&& match a[i].default {
            Some(x) => (b[i].default matches Some(y) && instantiates_expr(Seq::empty(), constants, templates, o2, x, y)),
            None => b[i].default is None,
        }
    } by {
        if let Some(x) = a[i].default {
            lemma_expr_grows(Seq::empty(), constants, templates, o1, o2, x, b[i].default->Some_0);
        }
    }
}

proof fn lemma_item_grows(
    constants: Seq<EvaluatedConstant>,
    templates: Seq<FunctionDefinition>,
    o1: Seq<(String, GenericOrigin)>,
    o2: Seq<(String, GenericOrigin)>,
    a: Item,
    b: Item,
)
    requires
        origins_grow(o1, o2),
        instantiates_item(constants, templates, o1, a, b),
    ensures
        instantiates_item(constants, templates, o2, a, b),
{
    match a {
        Item::ConstantDefinition(d) => {
            lemma_expr_grows(Seq::empty(), constants, templates, o1, o2, d.value, b->ConstantDefinition_0.value);
        },
        Item::TypeDefinition(d) => {
            let e = b->TypeDefinition_0;
            lemma_fields_grow(constants, templates, o1, o2, d.fields@, e.fields@);
            if let Some(vs) = d.variants {
                let ws = e.variants->Some_0;
                assert forall|i: int| 0 <= i < vs@.len() implies ws@[i].name@ == (#[trigger] vs@[i]).name@
                    && instantiates_fields(constants, templates, o2, vs@[i].fields@, ws@[i].fields@) by {
                    lemma_fields_grow(constants, templates, o1, o2, vs@[i].fields@, ws@[i].fields@);
                }
            }
        },
        Item::FunctionDefinition(d) => {
            let e = b->FunctionDefinition_0;
            lemma_stmts_grow(Seq::empty(), constants, templates, o1, o2, d.body@, e.body@, d.body@.len() as int);
        },
        Item::Statement(st) => {
            lemma_stmt_grows(Seq::empty(), constants, templates, o1, o2, st, b->Statement_0);
        },
    }
}

/// Generic instantiation in progress.
struct Expander<'a> {
    templates: Vec<FunctionDefinition>,
    type_names: Vec<String>,
    constants: &'a Vec<EvaluatedConstant>,
    instances: Vec<FunctionDefinition>,
    origins: Vec<(String, GenericOrigin)>,
    types: Vec<TypeRef>,
    array_length_uses: Vec<LengthUse>,
    active: Vec<String>,
    substitutions: Vec<(String, Argument)>,
}

impl<'a> Expander<'a> {
    /// The bookkeeping agrees with itself: one finished instance per
    /// instantiation that is not in progress, and
    /// every finished instance free of generics.
    spec fn wf(&self) -> bool {
        &&& origins_well_formed(self.origins@, self.templates@)
        &&& self.instances@.len() + self.active@.len() == self.origins@.len()
        &&& self.active@.len() <= 64
        &&& forall|i: int| 0 <= i < self.instances@.len() ==> function_generic_free(#[trigger] self.instances@[i])
        &&& forall|i: int| 0 <= i < self.instances@.len() ==> names_origin(self.origins@, (#[trigger] self.instances@[i]).name@)
    }

    /// No generic parameter is being replaced and no template exists.
    spec fn plain(&self) -> bool {
        &&& self.substitutions@.len() == 0
        &&& self.templates@.len() == 0
    }

    /// Nothing was instantiated: the instantiations, instances and type
    /// arguments are as in `other`.
    spec fn untouched(&self, other: &Self) -> bool {
        &&& self.origins == other.origins
        &&& self.instances == other.instances
        &&& self.types == other.types
    }

    /// The parts that instantiation reads but never changes.
    spec fn same_frame(&self, other: &Self) -> bool {
        &&& self.templates == other.templates
        &&& self.type_names == other.type_names
        &&& self.constants == other.constants
        &&& self.active@ == other.active@
        &&& self.substitutions == other.substitutions
        &&& origins_grow(other.origins@, self.origins@)
        &&& forall|j: int|
            0 <= j < other.origins@.len() && is_active(other.active@, (#[trigger] other.origins@[j]).1.template@)
                ==> self.origins@[j].1.calls == other.origins@[j].1.calls
    }

    /// `b` is `a` instantiated under this state's substitutions, given the
    /// instantiations `origins`.
    spec fn instantiates_e(&self, origins: Seq<(String, GenericOrigin)>, a: Expr, b: Expr) -> bool {
        instantiates_expr(self.substitutions@, self.constants@, self.templates@, origins, a, b)
    }

    /// `b` is `a` instantiated under this state's substitutions, given the
    /// instantiations `origins`.
    spec fn instantiates_s(&self, origins: Seq<(String, GenericOrigin)>, a: Stmt, b: Stmt) -> bool {
        instantiates_stmt(self.substitutions@, self.constants@, self.templates@, origins, a, b)
    }

    proof fn lemma_substitution_skip(subs: Seq<(String, Argument)>, name: Seq<char>, i: int)
        requires
            0 <= i < subs.len(),
            subs[i].0@ != name,
        ensures
            substitution(subs.skip(i), name) == substitution(subs.skip(i + 1), name),
    {
        assert(subs.skip(i).skip(1) =~= subs.skip(i + 1));
    }

    /// The position of the first substitution for `name`.
    fn find_substitution(&self, name: &str) -> (r: Option<usize>)
        ensures
            r matches Some(i) ==> i < self.substitutions@.len()
                && substitution(self.substitutions@, name@) == Some(self.substitutions@[i as int].1),
            r is None ==> substitution(self.substitutions@, name@) is None,
    {
        let mut i: usize = 0;
        assert(self.substitutions@.skip(0) =~= self.substitutions@);
        while i < self.substitutions.len()
            invariant
                i <= self.substitutions@.len(),
                substitution(self.substitutions@, name@) == substitution(self.substitutions@.skip(i as int), name@),
            decreases self.substitutions@.len() - i,
        {
            if same_text(self.substitutions[i].0.as_str(), name) {
                return Some(i);
            }
            proof {
                Self::lemma_substitution_skip(self.substitutions@, name@, i as int);
            }
            i = i + 1;
        }
        None
    }

    /// Refuses a binding named like a generic parameter.
    fn binding(&self, name: &str, span: Span) -> (r: Result<(), Diagnostic>)
        ensures
            r is Ok <==> substitution(self.substitutions@, name@) is None,
            r matches Err(e) ==> e.message@ == "binding conflicts with generic parameter "@ + name@
                && e.span == Some(span),
    {
        if self.find_substitution(name).is_some() {
            let mut message = String::from_str("binding conflicts with generic parameter ");
            message.append(name);
            return Err(Diagnostic::new(message, span));
        }
        Ok(())
    }

    /// Replaces the generic parameters in a written type.
    fn ty(&self, ty: TypeRef) -> (r: Result<TypeRef, Diagnostic>)
        ensures
            substituted_type(self.substitutions@, ty) matches Ok(t) ==> r == Ok::<TypeRef, Diagnostic>(t),
            self.substitutions@.len() == 0 ==> r is Ok,
            substituted_type(self.substitutions@, ty) matches Err((message, span))
                ==> r matches Err(e) && e.message@ == message && e.span == Some(span),
        decreases ty,
    {
        proof {
            if self.substitutions@.len() == 0 {
                assert(self.substitutions@ =~= Seq::<(String, Argument)>::empty());
                lemma_unsubstituted(ty);
            }
        }
        let span = ty.span;
        match ty.kind {
            TypeRefKind::Named(name) => {
                match self.find_substitution(name.as_str()) {
                    Some(i) => match &self.substitutions[i].1 {
                        Argument::Type(t) => {
                            let t = copy_type_ref(t);
                            Ok(TypeRef { kind: t.kind, span })
                        },
                        Argument::Length(_) => {
                            Err(Diagnostic::new(String::from_str("length parameter used as a type"), span))
                        },
                    },
                    None => Ok(TypeRef { kind: TypeRefKind::Named(name), span }),
                }
            },
            TypeRefKind::Array { element, length } => {
                let e = self.ty(*element)?;
                Ok(TypeRef { kind: TypeRefKind::Array { element: Box::new(e), length }, span })
            },
            TypeRefKind::ArrayConstant { element, constant } => {
                let e = self.ty(*element)?;
                match self.find_substitution(constant.name.as_str()) {
                    Some(i) => match &self.substitutions[i].1 {
                        Argument::Length(n) => Ok(
                            TypeRef { kind: TypeRefKind::Array { element: Box::new(e), length: *n }, span },
                        ),
                        Argument::Type(_) => Err(Diagnostic::new(
                            String::from_str("type parameter used as an array length"),
                            constant.span,
                        )),
                    },
                    None => Ok(TypeRef { kind: TypeRefKind::ArrayConstant { element: Box::new(e), constant }, span }),
                }
            },
        }
    }

    /// Replaces the generic parameters in an optional written type.
    fn spec(&self, spec: TypeSpec) -> (r: Result<TypeSpec, Diagnostic>)
        ensures
            spec is Infer ==> r == Ok::<TypeSpec, Diagnostic>(TypeSpec::Infer),
            spec matches TypeSpec::Explicit(ty) ==> (substituted_type(self.substitutions@, ty) matches Ok(t)
                ==> r == Ok::<TypeSpec, Diagnostic>(TypeSpec::Explicit(t))),
            r matches Ok(t) ==> substitutes_spec(self.substitutions@, spec, t),
            self.substitutions@.len() == 0 ==> r is Ok,
    {
        match spec {
            TypeSpec::Explicit(ty) => Ok(TypeSpec::Explicit(self.ty(ty)?)),
            TypeSpec::Infer => Ok(TypeSpec::Infer),
        }
    }

    /// Whether a type definition is named `name`.
    fn defines_type(&self, name: &str) -> (r: bool)
        ensures
            r == exists|i: int| 0 <= i < self.type_names@.len() && (#[trigger] self.type_names@[i])@ == name@,
    {
        contains_text(&self.type_names, name)
    }

    /// Accepts a built-in type, a defined type, or an array of those.
    fn validate_type(&self, ty: &TypeRef) -> (r: Result<(), Diagnostic>)
        ensures
            concrete_problem(self.type_names@, *ty) is None ==> r is Ok,
            concrete_problem(self.type_names@, *ty) matches Some(span) ==> r matches Err(e)
                && e.message@ == "generic argument requires a known concrete type"@ && e.span == Some(span),
        decreases ty,
    {
        match &ty.kind {
            TypeRefKind::Named(n) => {
                if Type::from_name(n.as_str()).is_some() || self.defines_type(n.as_str()) {
                    return Ok(());
                }
            },
            TypeRefKind::Array { element, .. } => {
                return self.validate_type(element);
            },
            TypeRefKind::ArrayConstant { .. } => {},
        }
        Err(Diagnostic::new(String::from_str("generic argument requires a known concrete type"), ty.span))
    }
}


/// Whether two lists of strings read the same.
fn same_texts(a: &Vec<String>, b: &Vec<String>) -> (r: bool)
    ensures
        r == (texts(a@) == texts(b@)),
{
    if a.len() != b.len() {
        assert(texts(a@).len() != texts(b@).len());
        return false;
    }
    let mut i: usize = 0;
    while i < a.len()
        invariant
            a@.len() == b@.len(),
            i <= a@.len(),
            forall|j: int| 0 <= j < i ==> (#[trigger] a@[j])@ == b@[j]@,
        decreases a@.len() - i,
    {
        if !same_text(a[i].as_str(), b[i].as_str()) {
            assert(texts(a@)[i as int] != texts(b@)[i as int]);
            return false;
        }
        i = i + 1;
    }
    assert(texts(a@) =~= texts(b@));
    true
}

impl<'a> Expander<'a> {
    /// The template named `name`, if any.
    fn find_template(&self, name: &str) -> (r: Option<usize>)
        ensures
            r matches Some(t) ==> t < self.templates@.len() && self.templates@[t as int].name@ == name@
                && template_parameters(self.templates@, name@) == self.templates@[t as int].generic_parameters@
                && template_of(self.templates@, name@) == self.templates@[t as int],
            r is None ==> !names_template(self.templates@, name@),
    {
        let mut t: usize = 0;
        assert(self.templates@.skip(0) =~= self.templates@);
        while t < self.templates.len()
            invariant
                t <= self.templates@.len(),
                forall|j: int| 0 <= j < t ==> (#[trigger] self.templates@[j]).name@ != name@,
                template_parameters(self.templates@, name@) == template_parameters(self.templates@.skip(t as int), name@),
                t < self.templates@.len() ==> template_of(self.templates@, name@) == template_of(self.templates@.skip(t as int), name@),
            decreases self.templates@.len() - t,
        {
            if same_text(self.templates[t].name.as_str(), name) {
                return Some(t);
            }
            assert(self.templates@.skip(t as int).skip(1) =~= self.templates@.skip(t + 1));
            t = t + 1;
        }
        None
    }

    /// The recorded instantiation of `template` with these arguments, if any.
    fn find_origin(&self, template: &str, arguments: &Vec<String>) -> (r: Option<usize>)
        ensures
            r matches Some(i) ==> i < self.origins@.len() && self.origins@[i as int].1.template@ == template@
                && texts(self.origins@[i as int].1.arguments@) == texts(arguments@),
            r matches Some(i) ==> forall|j: int| 0 <= j < i ==> !(
                (#[trigger] self.origins@[j]).1.template@ == template@
                    && texts(self.origins@[j].1.arguments@) == texts(arguments@)),
            r is None ==> forall|i: int| 0 <= i < self.origins@.len() ==> !(
                (#[trigger] self.origins@[i]).1.template@ == template@
                    && texts(self.origins@[i].1.arguments@) == texts(arguments@)),
    {
        let mut i: usize = 0;
        while i < self.origins.len()
            invariant
                i <= self.origins@.len(),
                forall|j: int| 0 <= j < i ==> !(
                    (#[trigger] self.origins@[j]).1.template@ == template@
                        && texts(self.origins@[j].1.arguments@) == texts(arguments@)),
            decreases self.origins@.len() - i,
        {
            if same_text(self.origins[i].1.template.as_str(), template)
                && same_texts(&self.origins[i].1.arguments, arguments) {
                return Some(i);
            }
            i = i + 1;
        }
        None
    }

    /// Instantiates the template `name` with explicit arguments at the call
    /// `span`, or reuses the instance made for an equal argument list, and
    /// returns the instance's name. A first instantiation with a length for
    /// each parameter, outside that template's own expansion and within the
    /// limits, succeeds whenever the template's body takes those lengths.
    #[verifier::loop_isolation(false)]
    fn instantiate(
        &mut self,
        name: String,
        name_span: Span,
        generic_arguments: Vec<GenericArgument>,
        span: Span,
        depth: usize,
    ) -> (r: Result<String, Diagnostic>)
        requires
            old(self).wf(),
            depth == old(self).active@.len(),
        ensures
            r is Ok ==> final(self).wf() && final(self).same_frame(old(self)),
            r matches Ok(n) ==> instance_for(
                final(self).origins@,
                n@,
                name@,
                call_texts(
                    old(self).substitutions@,
                    old(self).constants@,
                    template_parameters(old(self).templates@, name@),
                    generic_arguments@,
                ),
            ),
            !names_template(old(self).templates@, name@) ==> (r matches Err(e) && e.message@ == name@
                + " is not a generic function"@ && e.span == Some(name_span) && *final(self) == *old(self)),
            names_template(old(self).templates@, name@) && template_parameters(old(self).templates@, name@).len()
                != generic_arguments@.len() ==> (r matches Err(e) && e.message@ == name@ + " requires "@ + decimal(
                template_parameters(old(self).templates@, name@).len()) + " generic arguments"@ && e.span == Some(span)
                && *final(self) == *old(self)),
            reuses_instance(old(self).templates@, old(self).origins@, old(self).active@, name@, old(self).substitutions@,
                old(self).constants@, generic_arguments@) ==> r is Ok && final(self).origins@.len() == old(self).origins@.len(),
            forall|i: int| #[trigger] first_origin(old(self).origins@, i, name@, call_texts(
                old(self).substitutions@,
                old(self).constants@,
                template_parameters(old(self).templates@, name@),
                generic_arguments@,
            )) && r is Ok ==> {
                &&& r == Ok::<String, Diagnostic>(old(self).origins@[i].0)
                &&& final(self).origins@.len() == old(self).origins@.len()
                &&& final(self).origins@[i].1.calls@.len() == old(self).origins@[i].1.calls@.len() + 1
                &&& final(self).origins@[i].1.calls@.last().span == span
            },
            (forall|i: int| !origin_of(old(self).origins@, i, name@, call_texts(
                old(self).substitutions@,
                old(self).constants@,
                template_parameters(old(self).templates@, name@),
                generic_arguments@,
            ))) ==> (r matches Ok(n) ==> {
                &&& n@ == instance_name_of(old(self).origins@.len(), name@)
                &&& final(self).origins@.len() > old(self).origins@.len()
                &&& final(self).origins@[old(self).origins@.len() as int].0@ == n@
                &&& final(self).origins@[old(self).origins@.len() as int].1.calls@.len() == 1
                &&& origin_of(final(self).origins@, old(self).origins@.len() as int, name@, call_texts(
                old(self).substitutions@,
                old(self).constants@,
                template_parameters(old(self).templates@, name@),
                generic_arguments@,
            ))
            }),
            names_template(old(self).templates@, name@) && template_parameters(old(self).templates@, name@).len()
                == generic_arguments@.len() && (forall|i: int|
                0 <= i < generic_arguments@.len() ==> (#[trigger] generic_arguments@[i]) is Length) && (exists|k: int|
                0 <= k < generic_arguments@.len() && !(#[trigger] template_parameters(old(self).templates@, name@)[k]).length)
                ==> (r matches Err(e) && e.message@ == "generic type argument requires a type"@ && *final(self) == *old(self)),
            length_call(old(self).templates@, name@, generic_arguments@) && (exists|i: int|
                0 <= i < old(self).active@.len() && (#[trigger] old(self).active@[i])@ == name@) ==> (r matches Err(e)
                && e.message@ == "recursive generic function "@ + name@ && e.span == Some(span) && *final(self)
                == *old(self)),
            length_call(old(self).templates@, name@, generic_arguments@) && (forall|i: int|
                0 <= i < old(self).active@.len() ==> (#[trigger] old(self).active@[i])@ != name@) && (forall|i: int|
                !origin_of(old(self).origins@, i, name@, call_texts(
                old(self).substitutions@,
                old(self).constants@,
                template_parameters(old(self).templates@, name@),
                generic_arguments@,
            ))) && (old(self).origins@.len() >= 256
                || old(self).active@.len() >= 64) ==> (r matches Err(e) && e.message@
                == "generic expansion exceeds 256 instances or depth 64"@ && e.span == Some(span) && *final(self)
                == *old(self)),
            forall|k: int|
                0 <= k < generic_arguments@.len() && names_template(old(self).templates@, name@) && template_parameters(
                    old(self).templates@,
                    name@,
                ).len() == generic_arguments@.len() && (#[trigger] generic_arguments@[k]) is Length
                    && !template_parameters(old(self).templates@, name@)[k].length && (forall|j: int|
                    0 <= j < k ==> argument_ok(
                        old(self).type_names@,
                        old(self).substitutions@,
                        old(self).constants@,
                        template_parameters(old(self).templates@, name@)[j].length,
                        #[trigger] generic_arguments@[j],
                    )) ==> (r matches Err(e) && e.message@ == "generic type argument requires a type"@
                    && final(self).origins == old(self).origins && final(self).instances == old(self).instances),
            valid_call(old(self).templates@, old(self).type_names@, old(self).substitutions@, old(self).constants@, name@,
                generic_arguments@) && (exists|i: int|
                0 <= i < old(self).active@.len() && (#[trigger] old(self).active@[i])@ == name@) ==> (r matches Err(e)
                && e.message@ == "recursive generic function "@ + name@ && e.span == Some(span)
                && final(self).origins == old(self).origins && final(self).instances == old(self).instances),
            valid_call(old(self).templates@, old(self).type_names@, old(self).substitutions@, old(self).constants@, name@,
                generic_arguments@) && (forall|i: int|
                0 <= i < old(self).active@.len() ==> (#[trigger] old(self).active@[i])@ != name@) && (forall|i: int|
                !origin_of(old(self).origins@, i, name@, call_texts(
                old(self).substitutions@,
                old(self).constants@,
                template_parameters(old(self).templates@, name@),
                generic_arguments@,
            ))) && (old(self).origins@.len() >= 256 || old(self).active@.len() >= 64) ==> (r matches Err(e)
                && e.message@ == "generic expansion exceeds 256 instances or depth 64"@ && e.span == Some(span)
                && final(self).origins == old(self).origins && final(self).instances == old(self).instances),
            forall|i: int| #[trigger] first_origin(old(self).origins@, i, name@, call_texts(
                old(self).substitutions@,
                old(self).constants@,
                template_parameters(old(self).templates@, name@),
                generic_arguments@,
            )) && valid_call(old(self).templates@, old(self).type_names@, old(self).substitutions@, old(self).constants@, name@,
                generic_arguments@) && (forall|a: int|
                0 <= a < old(self).active@.len() ==> (#[trigger] old(self).active@[a])@ != name@)
                ==> r == Ok::<String, Diagnostic>(old(self).origins@[i].0),
            valid_call(old(self).templates@, old(self).type_names@, old(self).substitutions@, old(self).constants@, name@,
                generic_arguments@) && (forall|i: int|
                0 <= i < old(self).active@.len() ==> (#[trigger] old(self).active@[i])@ != name@) && (forall|i: int|
                !origin_of(old(self).origins@, i, name@, call_texts(
                old(self).substitutions@,
                old(self).constants@,
                template_parameters(old(self).templates@, name@),
                generic_arguments@,
            ))) && old(self).origins@.len() < 256 && old(self).active@.len() < 64 && function_ordinary(
                call_substitutions(
                    old(self).substitutions@,
                    old(self).constants@,
                    template_parameters(old(self).templates@, name@),
                    generic_arguments@,
                ),
                old(self).templates@,
                template_of(old(self).templates@, name@),
            ) ==> r is Ok,
        decreases 64 - depth, 0int, generic_arguments,
    {
        let t = match self.find_template(name.as_str()) {
            Some(t) => t,
            None => {
                let mut message = String::from_str(name.as_str());
                message.append(" is not a generic function");
                return Err(Diagnostic::new(message, name_span));
            },
        };
        let count = self.templates[t].generic_parameters.len();
        if count != generic_arguments.len() {
            let mut message = String::from_str(name.as_str());
            message.append(" requires ");
            let digits = decimal_text(count as u64);
            message.append(digits.as_str());
            message.append(" generic arguments");
            return Err(Diagnostic::new(message, span));
        }
        let ghost start = *self;
        let mut substitutions: Vec<(String, Argument)> = Vec::new();
        let mut descriptions: Vec<String> = Vec::new();
        let mut argument_spans: Vec<Span> = Vec::new();
        let mut k: usize = 0;
        while k < count
            invariant
                self.wf(),
                self.same_frame(&start),
                self.origins == start.origins,
                self.instances == start.instances,
                t < self.templates@.len(),
                count == self.templates@[t as int].generic_parameters@.len(),
                count == generic_arguments@.len(),
                k <= count,
                descriptions@.len() == k,
                argument_spans@.len() == k,
                template_parameters(start.templates@, name@) == self.templates@[t as int].generic_parameters@,
                forall|i: int| 0 <= i < k ==> argument_text(
                    start.substitutions@,
                    start.constants@,
                    self.templates@[t as int].generic_parameters@[i].length,
                    #[trigger] generic_arguments@[i],
                ) == Some(descriptions@[i]@),
                (forall|i: int| 0 <= i < generic_arguments@.len() ==> (#[trigger] generic_arguments@[i]) is Length)
                    ==> *self == start && forall|j: int| 0 <= j < k ==> (#[trigger] self.templates@[t as int].generic_parameters@[j]).length,
                substitutions@ =~= call_substitutions(
                    start.substitutions@,
                    start.constants@,
                    self.templates@[t as int].generic_parameters@,
                    generic_arguments@,
                ).take(k as int),
                forall|j: int| 0 <= j < k ==> argument_ok(
                    start.type_names@,
                    start.substitutions@,
                    start.constants@,
                    self.templates@[t as int].generic_parameters@[j].length,
                    #[trigger] generic_arguments@[j],
                ),
            decreases count - k,
        {
            assert(reuses_instance(old(self).templates@, old(self).origins@, old(self).active@, name@,
                old(self).substitutions@, old(self).constants@, generic_arguments@) ==> generic_arguments@[k as int] is Length
                && self.templates@[t as int].generic_parameters@[k as int].length);
            let length = self.templates[t].generic_parameters[k].length;
            let parameter = self.templates[t].generic_parameters[k].name.clone();
            let resolved = match &generic_arguments[k] {
                GenericArgument::Length { value, span: argument_span } => {
                    if !length {
                        return Err(Diagnostic::new(
                            String::from_str("generic type argument requires a type"),
                            *argument_span,
                        ));
                    }
                    argument_spans.push(*argument_span);
                    Argument::Length(*value)
                },
                GenericArgument::Type(ty) => {
                    argument_spans.push(ty.span);
                    if length {
                        let value = match &ty.kind {
                            TypeRefKind::Named(n) => match self.find_substitution(n.as_str()) {
                                Some(i) => match &self.substitutions[i].1 {
                                    Argument::Length(v) => *v,
                                    Argument::Type(_) => {
                                        return Err(Diagnostic::new(
                                            String::from_str("type parameter used as a generic length"),
                                            ty.span,
                                        ));
                                    },
                                },
                                None => resolve_length(self.constants, n.as_str(), ty.span)?,
                            },
                            _ => {
                                return Err(Diagnostic::new(
                                    String::from_str("generic length requires a positive integer literal or constant name"),
                                    ty.span,
                                ));
                            },
                        };
                        Argument::Length(value)
                    } else {
                        let substituted = self.ty(copy_type_ref(ty))?;
                        let (concrete, mut uses) = resolve_type(self.constants, substituted)?;
                        self.array_length_uses.append(&mut uses);
                        self.validate_type(&concrete)?;
                        self.types.push(copy_type_ref(&concrete));
                        Argument::Type(concrete)
                    }
                },
            };
            let description = match &resolved {
                Argument::Type(ty) => type_key_text(ty),
                Argument::Length(n) => decimal_text(*n as u64),
            };
            proof {
                assert(argument_text(
                    start.substitutions@,
                    start.constants@,
                    self.templates@[t as int].generic_parameters@[k as int].length,
                    generic_arguments@[k as int],
                ) == Some(description@));
            }
            descriptions.push(description);
            substitutions.push((parameter, resolved));
            k = k + 1;
        }
        proof {
            assert(texts(descriptions@) =~= call_texts(
                start.substitutions@,
                start.constants@,
                template_parameters(start.templates@, name@),
                generic_arguments@,
            ));
        }
        if contains_text(&self.active, name.as_str()) {
            let mut message = String::from_str("recursive generic function ");
            message.append(name.as_str());
            return Err(Diagnostic::new(message, span));
        }
        match self.find_origin(name.as_str(), &descriptions) {
            Some(index) => {
                assert(origin_of(
                    start.origins@,
                    index as int,
                    name@,
                    call_texts(start.substitutions@, start.constants@, template_parameters(start.templates@, name@), generic_arguments@),
                ));
                let mut entry = self.origins.remove(index);
                entry.1.calls.push(GenericUse { span, argument_spans });
                let result = entry.0.clone();
                self.origins.insert(index, entry);
                proof {
                    let o = self.origins@;
                    let prev = start.origins@;
                    assert(o =~= prev.update(index as int, o[index as int]));
                    assert(texts(o[index as int].1.arguments@).len() == texts(descriptions@).len());
                    assert(origins_well_formed(o, self.templates@)) by {
                        assert forall|i: int| 0 <= i < o.len() implies {
                            let oi = (#[trigger] o[i]).1;
                            &&& o[i].0@ == instance_name(i as nat, oi.template@)
                            &&& names_template(self.templates@, oi.template@)
                            &&& oi.calls@.len() > 0
                            &&& forall|c: int| 0 <= c < oi.calls@.len()
                                ==> (#[trigger] oi.calls@[c]).argument_spans@.len() == oi.arguments@.len()
                        } by {
                            if i == index {
                                assert(prev[i].1.calls@.push(GenericUse { span, argument_spans }) =~= o[i].1.calls@);
                                assert forall|c: int| 0 <= c < o[i].1.calls@.len()
                                    implies (#[trigger] o[i].1.calls@[c]).argument_spans@.len() == o[i].1.arguments@.len() by {
                                    if c < prev[i].1.calls@.len() {
                                        assert(o[i].1.calls@[c] == prev[i].1.calls@[c]);
                                    }
                                }
                            }
                        }
                        assert forall|i: int, j: int| 0 <= i < j < o.len()
                            implies !same_instantiation((#[trigger] o[i]).1, (#[trigger] o[j]).1) by {
                            assert(same_instantiation(o[i].1, o[j].1) == same_instantiation(prev[i].1, prev[j].1));
                        }
                    }
                    assert forall|j: int| 0 <= j < prev.len() implies (#[trigger] o[j]).0 == prev[j].0 by {
                        assert(o[j].0 == prev[j].0);
                    }
                    assert forall|i: int| 0 <= i < self.instances@.len()
                        implies names_origin(o, (#[trigger] self.instances@[i]).name@) by {
                        let j = choose|j: int| 0 <= j < prev.len() && (#[trigger] prev[j]).0@ == self.instances@[i].name@;
                        assert(o[j].0 == prev[j].0);
                    }
                }
                return Ok(result);
            },
            None => {},
        }
        if self.origins.len() >= 256 || self.active.len() >= 64 {
            return Err(Diagnostic::new(
                String::from_str("generic expansion exceeds 256 instances or depth 64"),
                span,
            ));
        }
        let index = self.origins.len();
        let mut instance = String::from_str("$generic_");
        let digits = decimal_text(index as u64);
        instance.append(digits.as_str());
        instance.append("_");
        instance.append(name.as_str());
        let ghost owed = function_ordinary(
            call_substitutions(start.substitutions@, start.constants@, template_parameters(start.templates@, name@), generic_arguments@),
            start.templates@,
            template_of(start.templates@, name@),
        );
        proof {
            if owed {
                assert(substitutions@ =~= call_substitutions(start.substitutions@, start.constants@, template_parameters(start.templates@, name@), generic_arguments@));
                assert(function_ordinary(substitutions@, self.templates@, self.templates@[t as int]));
            }
        }
        let mut definition = copy_function(&self.templates[t], Ghost(Seq::empty()), Ghost(Seq::empty()), Ghost(substitutions@), Ghost(self.templates@));
        let origin = GenericOrigin {
            template: name.clone(),
            definition: self.templates[t].span,
            arguments: descriptions,
            calls: vec![GenericUse { span, argument_spans }],
        };
        let ghost prev = self.origins@;
        self.origins.push((instance.clone(), origin));
        proof {
            let o = self.origins@;
            assert(o[index as int].1.calls@.len() == 1);
            assert(names_template(self.templates@, name@));
            assert forall|i: int, j: int| 0 <= i < j < o.len()
                implies !same_instantiation((#[trigger] o[i]).1, (#[trigger] o[j]).1) by {
                if j < index {
                    assert(o[i] == prev[i] && o[j] == prev[j]);
                } else {
                    assert(o[i] == prev[i]);
                }
            }
            assert forall|i: int| 0 <= i < o.len() implies {
                let oi = (#[trigger] o[i]).1;
                &&& o[i].0@ == instance_name(i as nat, oi.template@)
                &&& names_template(self.templates@, oi.template@)
                &&& oi.calls@.len() > 0
                &&& forall|c: int| 0 <= c < oi.calls@.len()
                    ==> (#[trigger] oi.calls@[c]).argument_spans@.len() == oi.arguments@.len()
            } by {
                if i < index {
                    assert(o[i] == prev[i]);
                }
            }
            assert forall|i: int| 0 <= i < self.instances@.len()
                implies names_origin(o, (#[trigger] self.instances@[i]).name@) by {
                let j = choose|j: int| 0 <= j < prev.len() && (#[trigger] prev[j]).0@ == self.instances@[i].name@;
                assert(o[j] == prev[j]);
            }
        }
        let ghost copied = definition;
        definition.generic_parameters = Vec::new();
        definition.name = instance.clone();
        proof {
            if owed {
                assert(function_ordinary(substitutions@, self.templates@, copied));
                assert(definition.parameters == copied.parameters && definition.body == copied.body
                    && definition.return_type == copied.return_type);
                assert(function_ordinary(substitutions@, self.templates@, definition));
            }
        }
        let ghost local = substitutions@;
        let mut saved = substitutions;
        core::mem::swap(&mut self.substitutions, &mut saved);
        assert(self.substitutions@ == local);
        self.active.push(name.clone());
        let ghost inner = *self;
        let result = self.function(definition, depth + 1);
        let instantiated = match result {
            Ok(d) => d,
            Err(error) => {
                let primary = match error.primary_span() {
                    Some(p) => p,
                    None => span,
                };
                let mut message = String::from_str(error.message());
                message.append("; while instantiating ");
                message.append(name.as_str());
                message.append(" at source=");
                let source = decimal_text(span.source_id().index() as u64);
                message.append(source.as_str());
                message.append(" bytes=");
                let first = decimal_text(span.start() as u64);
                message.append(first.as_str());
                message.append("..");
                let last = decimal_text(span.end() as u64);
                message.append(last.as_str());
                return Err(Diagnostic::new(message, primary));
            },
        };
        self.active.pop();
        core::mem::swap(&mut self.substitutions, &mut saved);
        proof {
            assert(self.origins@[index as int].0@ == instance@);
        }
        self.instances.push(instantiated);
        proof {
            assert(self.active@ =~= start.active@);
            assert(names_origin(self.origins@, instance@));
        }
        Ok(instance)
    }

    /// Instantiates every generic call in a list of expressions, in order.
    #[verifier::loop_isolation(false)]
    fn exprs(&mut self, values: Vec<Expr>, depth: usize) -> (r: Result<Vec<Expr>, Diagnostic>)
        requires
            old(self).wf(),
            depth == old(self).active@.len(),
        ensures
            r is Ok ==> final(self).wf() && final(self).same_frame(old(self)),
            old(self).plain() && (forall|i: int| 0 <= i < values@.len() ==> expr_generic_free(#[trigger] values@[i])) ==> r is Ok,
            (forall|i: int| 0 <= i < values@.len() ==> expr_ordinary(old(self).substitutions@, old(self).templates@, #[trigger] values@[i])) ==> r is Ok && final(self).untouched(old(self)),
            r matches Ok(out) ==> out@.len() == values@.len()
                && forall|i: int| 0 <= i < out@.len() ==> expr_generic_free(#[trigger] out@[i]),
            r matches Ok(out) ==> forall|i: int|
                0 <= i < values@.len() ==> old(self).instantiates_e(final(self).origins@, #[trigger] values@[i], out@[i]),
        decreases 64 - depth, 1int, values,
    {
        let ghost owed_plain = (forall|i: int| 0 <= i < values@.len() ==> expr_ordinary(old(self).substitutions@, old(self).templates@, #[trigger] values@[i]));
        let ghost orig = values@;
        let ghost start = *self;
        let mut rest = values;
        let mut out: Vec<Expr> = Vec::new();
        while rest.len() > 0
            invariant
                owed_plain ==> self.untouched(old(self)),
                out@.len() + rest@.len() == orig.len(),
                rest@ == orig.skip(out@.len() as int),
                self.wf(),
                self.same_frame(&start),
                forall|i: int| 0 <= i < out@.len() ==> expr_generic_free(#[trigger] out@[i]),
                forall|i: int| 0 <= i < out@.len() ==> start.instantiates_e(self.origins@, #[trigger] orig[i], out@[i]),
            decreases rest@.len(),
        {
            let ghost k = out@.len() as int;
            let item = rest.remove(0);
            assert(item == orig[k]);
            assert(rest@ =~= orig.skip(k + 1));
            let ghost o1 = self.origins@;
            let e = self.expr(item, depth)?;
            proof {
                lemma_exprs_grow(start.substitutions@, start.constants@, start.templates@, o1, self.origins@, orig, out@, k);
            }
            let ghost before = out@;
            out.push(e);
            proof {
                assert forall|i: int| 0 <= i < out@.len() implies start.instantiates_e(self.origins@, #[trigger] orig[i], out@[i]) by {
                    if i < k {
                        assert(out@[i] == before[i]);
                    }
                }
            }
        }
        Ok(out)
    }

    /// Instantiates every generic call in the values of constructor fields.
    #[verifier::loop_isolation(false)]
    fn field_values(&mut self, fields: Vec<FieldValue>, depth: usize) -> (r: Result<Vec<FieldValue>, Diagnostic>)
        requires
            old(self).wf(),
            depth == old(self).active@.len(),
        ensures
            r is Ok ==> final(self).wf() && final(self).same_frame(old(self)),
            old(self).plain() && (forall|i: int| 0 <= i < fields@.len() ==> expr_generic_free(#[trigger] fields@[i].value)) ==> r is Ok,
            (forall|i: int| 0 <= i < fields@.len() ==> expr_ordinary(old(self).substitutions@, old(self).templates@, #[trigger] fields@[i].value)) ==> r is Ok && final(self).untouched(old(self)),
            r matches Ok(out) ==> out@.len() == fields@.len()
                && forall|i: int| 0 <= i < out@.len() ==> expr_generic_free((#[trigger] out@[i]).value),
            r matches Ok(out) ==> forall|i: int|
                0 <= i < fields@.len() ==> out@[i].name@ == (#[trigger] fields@[i]).name@
                    && old(self).instantiates_e(final(self).origins@, fields@[i].value, out@[i].value),
        decreases 64 - depth, 1int, fields,
    {
        let ghost owed_plain = (forall|i: int| 0 <= i < fields@.len() ==> expr_ordinary(old(self).substitutions@, old(self).templates@, #[trigger] fields@[i].value));
        let ghost orig = fields@;
        let ghost start = *self;
        let mut rest = fields;
        let mut out: Vec<FieldValue> = Vec::new();
        while rest.len() > 0
            invariant
                owed_plain ==> self.untouched(old(self)),
                out@.len() + rest@.len() == orig.len(),
                rest@ == orig.skip(out@.len() as int),
                self.wf(),
                self.same_frame(&start),
                forall|i: int| 0 <= i < out@.len() ==> expr_generic_free((#[trigger] out@[i]).value),
                forall|i: int| 0 <= i < out@.len() ==> out@[i].name@ == (#[trigger] orig[i]).name@
                    && start.instantiates_e(self.origins@, orig[i].value, out@[i].value),
            decreases rest@.len(),
        {
            let ghost k = out@.len() as int;
            let field = rest.remove(0);
            assert(field == orig[k]);
            assert(rest@ =~= orig.skip(k + 1));
            let ghost o1 = self.origins@;
            let value = self.expr(field.value, depth)?;
            let ghost before = out@;
            out.push(FieldValue {
                generated: field.generated,
                name: field.name,
                name_span: field.name_span,
                value,
                span: field.span,
            });
            proof {
                assert forall|i: int| 0 <= i < out@.len() implies out@[i].name@ == (#[trigger] orig[i]).name@
                    && start.instantiates_e(self.origins@, orig[i].value, out@[i].value) by {
                    if i < k {
                        assert(out@[i] == before[i]);
                        lemma_expr_grows(
                            start.substitutions@,
                            start.constants@,
                            start.templates@,
                            o1,
                            self.origins@,
                            orig[i].value,
                            before[i].value,
                        );
                    }
                }
            }
        }
        Ok(out)
    }

    /// Replaces generic calls by calls of instances, length parameters by
    /// their values and type parameters in conversions by their types.
    #[verifier::loop_isolation(false)]
    fn expr(&mut self, expr: Expr, depth: usize) -> (r: Result<Expr, Diagnostic>)
        requires
            old(self).wf(),
            depth == old(self).active@.len(),
        ensures
            r is Ok ==> final(self).wf() && final(self).same_frame(old(self)),
            old(self).plain() && expr_generic_free(expr) ==> r is Ok,
            expr_ordinary(old(self).substitutions@, old(self).templates@, expr) ==> r is Ok && final(self).untouched(old(self)),
            r matches Ok(e) ==> expr_generic_free(e) && e.span == expr.span,
            r matches Ok(e) ==> old(self).instantiates_e(final(self).origins@, expr, e),
            expr.kind matches ExprKind::Variable(n) && (substitution(old(self).substitutions@, n@) matches Some(
                Argument::Type(_),
            )) ==> (r matches Err(e) && e.message@ == "type parameter used as a value"@ && e.span == Some(expr.span)),
            expr.kind is Call && names_template(old(self).templates@, expr.kind->Call_name@) ==> (r matches Err(e)
                && e.message@ == "generic function "@ + expr.kind->Call_name@ + " requires explicit ::<...> arguments"@
                && e.span == Some(expr.span)),
        decreases 64 - depth, 1int, expr,
    {
        let ghost start = *self;
        let ghost whole = expr;
        let span = expr.span;
        let kind = match expr.kind {
            ExprKind::GenericCall(call) => {
                let call = *call;
                let ghost given = call.arguments@;
                let arguments = self.exprs(call.arguments, depth)?;
                let ghost o1 = self.origins@;
                let instance = self.instantiate(call.name, call.name_span, call.generic_arguments, span, depth)?;
                proof {
                    lemma_exprs_grow(
                        start.substitutions@,
                        start.constants@,
                        start.templates@,
                        o1,
                        self.origins@,
                        given,
                        arguments@,
                        given.len() as int,
                    );
                }
                ExprKind::Call { name: instance, name_span: call.name_span, arguments }
            },
            ExprKind::Variable(name) => match self.find_substitution(name.as_str()) {
                Some(i) => match &self.substitutions[i].1 {
                    Argument::Length(n) => {
                        let digits = decimal_text(*n as u64);
                        ExprKind::Integer(IntegerLiteral::with_type(digits, IntegerType::I64))
                    },
                    Argument::Type(_) => {
                        return Err(Diagnostic::new(String::from_str("type parameter used as a value"), span));
                    },
                },
                None => ExprKind::Variable(name),
            },
            ExprKind::Convert { mode, target, value, syntax } => {
                let target = self.ty(target)?;
                let value = self.expr(*value, depth)?;
                ExprKind::Convert { mode, target, value: Box::new(value), syntax }
            },
            ExprKind::Construct { type_path, type_path_span, base, fields } => {
                let ghost given = base;
                let base = match base {
                    Some(b) => Some(Box::new(self.expr(*b, depth)?)),
                    None => None,
                };
                let ghost o1 = self.origins@;
                let fields = self.field_values(fields, depth)?;
                proof {
                    if let Some(b) = given {
                        lemma_expr_grows(
                            start.substitutions@,
                            start.constants@,
                            start.templates@,
                            o1,
                            self.origins@,
                            *b,
                            *base->Some_0,
                        );
                    }
                }
                ExprKind::Construct { type_path, type_path_span, base, fields }
            },
            ExprKind::Call { name, name_span, arguments } => {
                if self.find_template(name.as_str()).is_some() {
                    let mut message = String::from_str("generic function ");
                    message.append(name.as_str());
                    message.append(" requires explicit ::<...> arguments");
                    return Err(Diagnostic::new(message, span));
                }
                let arguments = self.exprs(arguments, depth)?;
                ExprKind::Call { name, name_span, arguments }
            },
            ExprKind::Array(values) => ExprKind::Array(self.exprs(values, depth)?),
            ExprKind::Unary { op, value } => ExprKind::Unary { op, value: Box::new(self.expr(*value, depth)?) },
            ExprKind::FieldAccess { base, field_name, field_name_span } => {
                ExprKind::FieldAccess { base: Box::new(self.expr(*base, depth)?), field_name, field_name_span }
            },
            ExprKind::Binary { op, left, right } => {
                let ghost first = *left;
                let left = self.expr(*left, depth)?;
                let ghost o1 = self.origins@;
                let right = self.expr(*right, depth)?;
                proof {
                    lemma_expr_grows(start.substitutions@, start.constants@, start.templates@, o1, self.origins@, first, left);
                }
                ExprKind::Binary { op, left: Box::new(left), right: Box::new(right) }
            },
            ExprKind::Logical { op, left, right } => {
                let ghost first = *left;
                let left = self.expr(*left, depth)?;
                let ghost o1 = self.origins@;
                let right = self.expr(*right, depth)?;
                proof {
                    lemma_expr_grows(start.substitutions@, start.constants@, start.templates@, o1, self.origins@, first, left);
                }
                ExprKind::Logical { op, left: Box::new(left), right: Box::new(right) }
            },
            ExprKind::Index { base, index } => {
                let ghost first = *base;
                let base = self.expr(*base, depth)?;
                let ghost o1 = self.origins@;
                let index = self.expr(*index, depth)?;
                proof {
                    lemma_expr_grows(start.substitutions@, start.constants@, start.templates@, o1, self.origins@, first, base);
                }
                ExprKind::Index { base: Box::new(base), index: Box::new(index) }
            },
            ExprKind::Boolean(b) => ExprKind::Boolean(b),
            ExprKind::String(text) => ExprKind::String(text),
            ExprKind::Integer(literal) => ExprKind::Integer(literal),
            ExprKind::Float { text, explicit_type } => ExprKind::Float { text, explicit_type },
        };
        let r = Expr { kind, span };
        assert(expr_generic_free(r));
        assert(start.instantiates_e(self.origins@, whole, r));
        Ok(r)
    }

    /// Instantiates every generic call in a statement list, in order.
    #[verifier::loop_isolation(false)]
    fn statements(&mut self, body: Vec<Stmt>, depth: usize) -> (r: Result<Vec<Stmt>, Diagnostic>)
        requires
            old(self).wf(),
            depth == old(self).active@.len(),
        ensures
            r is Ok ==> final(self).wf() && final(self).same_frame(old(self)),
            old(self).plain() && stmts_generic_free(body@) ==> r is Ok,
            stmts_ordinary(old(self).substitutions@, old(self).templates@, body@) ==> r is Ok && final(self).untouched(old(self)),
            r matches Ok(out) ==> stmts_generic_free(out@),
            r matches Ok(out) ==> out@.len() == body@.len() && forall|i: int|
                0 <= i < body@.len() ==> old(self).instantiates_s(final(self).origins@, #[trigger] body@[i], out@[i]),
        decreases 64 - depth, 3int, body,
    {
        let ghost owed_plain = stmts_ordinary(old(self).substitutions@, old(self).templates@, body@);
        let ghost orig = body@;
        let ghost start = *self;
        let mut rest = body;
        let mut out: Vec<Stmt> = Vec::new();
        while rest.len() > 0
            invariant
                owed_plain ==> self.untouched(old(self)),
                out@.len() + rest@.len() == orig.len(),
                rest@ == orig.skip(out@.len() as int),
                self.wf(),
                self.same_frame(&start),
                stmts_generic_free(out@),
                forall|i: int| 0 <= i < out@.len() ==> start.instantiates_s(self.origins@, #[trigger] orig[i], out@[i]),
            decreases rest@.len(),
        {
            let ghost k = out@.len() as int;
            let item = rest.remove(0);
            assert(item == orig[k]);
            assert(rest@ =~= orig.skip(k + 1));
            let ghost o1 = self.origins@;
            let statement = self.statement(item, depth)?;
            proof {
                lemma_stmts_grow(start.substitutions@, start.constants@, start.templates@, o1, self.origins@, orig, out@, k);
            }
            let ghost before = out@;
            out.push(statement);
            proof {
                assert forall|i: int| 0 <= i < out@.len() implies start.instantiates_s(self.origins@, #[trigger] orig[i], out@[i]) by {
                    if i < k {
                        assert(out@[i] == before[i]);
                    }
                }
            }
        }
        Ok(out)
    }

    /// Instantiates every generic call in the index expressions of an
    /// assignment target.
    #[verifier::loop_isolation(false)]
    fn projections(&mut self, projections: Vec<AssignmentProjection>, depth: usize) -> (r: Result<
        Vec<AssignmentProjection>,
        Diagnostic,
    >)
        requires
            old(self).wf(),
            depth == old(self).active@.len(),
        ensures
            r is Ok ==> final(self).wf() && final(self).same_frame(old(self)),
            old(self).plain() && (forall|i: int| 0 <= i < projections@.len() ==> expr_generic_free((#[trigger] projections@[i])->index)) ==> r is Ok,
            (forall|i: int| 0 <= i < projections@.len() ==> expr_ordinary(old(self).substitutions@, old(self).templates@, (#[trigger] projections@[i])->index)) ==> r is Ok && final(self).untouched(old(self)),
            r matches Ok(out) ==> forall|i: int| 0 <= i < out@.len() ==> expr_generic_free((#[trigger] out@[i])->index),
            r matches Ok(out) ==> out@.len() == projections@.len() && forall|i: int|
                0 <= i < projections@.len() ==> old(self).instantiates_e(
                    final(self).origins@,
                    (#[trigger] projections@[i])->index,
                    out@[i]->index,
                ),
        decreases 64 - depth, 2int, projections,
    {
        let ghost owed_plain = (forall|i: int| 0 <= i < projections@.len() ==> expr_ordinary(old(self).substitutions@, old(self).templates@, (#[trigger] projections@[i])->index));
        let ghost orig = projections@;
        let ghost start = *self;
        let mut rest = projections;
        let mut out: Vec<AssignmentProjection> = Vec::new();
        while rest.len() > 0
            invariant
                owed_plain ==> self.untouched(old(self)),
                out@.len() + rest@.len() == orig.len(),
                rest@ == orig.skip(out@.len() as int),
                self.wf(),
                self.same_frame(&start),
                forall|i: int| 0 <= i < out@.len() ==> expr_generic_free((#[trigger] out@[i])->index),
                forall|i: int| 0 <= i < out@.len() ==> start.instantiates_e(self.origins@, (#[trigger] orig[i])->index, out@[i]->index),
            decreases rest@.len(),
        {
            let ghost k = out@.len() as int;
            let item = rest.remove(0);
            assert(item == orig[k]);
            assert(rest@ =~= orig.skip(k + 1));
            let ghost o1 = self.origins@;
            match item {
                AssignmentProjection::Index { index, span } => {
                    let index = self.expr(index, depth)?;
                    let ghost before = out@;
                    out.push(AssignmentProjection::Index { index, span });
                    proof {
                        assert forall|i: int| 0 <= i < out@.len() implies start.instantiates_e(
                            self.origins@,
                            (#[trigger] orig[i])->index,
                            out@[i]->index,
                        ) by {
                            if i < k {
                                assert(out@[i] == before[i]);
                                lemma_expr_grows(
                                    start.substitutions@,
                                    start.constants@,
                                    start.templates@,
                                    o1,
                                    self.origins@,
                                    orig[i]->index,
                                    before[i]->index,
                                );
                            }
                        }
                    }
                },
            }
        }
        Ok(out)
    }

    /// Checks the pattern bindings of `match` arms and instantiates every
    /// generic call in their bodies.
    #[verifier::loop_isolation(false)]
    fn arms(&mut self, arms: Vec<MatchArm>, depth: usize) -> (r: Result<Vec<MatchArm>, Diagnostic>)
        requires
            old(self).wf(),
            depth == old(self).active@.len(),
        ensures
            r is Ok ==> final(self).wf() && final(self).same_frame(old(self)),
            old(self).plain() && (forall|i: int, j: int| 0 <= i < arms@.len() && 0 <= j < arms@[i].body@.len()
                ==> stmt_generic_free(#[trigger] arms@[i].body@[j])) ==> r is Ok,
            (forall|i: int, j: int| 0 <= i < arms@.len() && 0 <= j < arms@[i].body@.len() ==> stmt_ordinary(old(self).substitutions@, old(self).templates@, #[trigger] arms@[i].body@[j])) && (forall|i: int, f: int| 0 <= i < arms@.len() && 0 <= f < arms@[i].fields@.len() ==> substitution(old(self).substitutions@, (#[trigger] arms@[i].fields@[f]).binding@) is None) ==> r is Ok && final(self).untouched(old(self)),
            r matches Ok(out) ==> forall|i: int| 0 <= i < out@.len() ==> stmts_generic_free((#[trigger] out@[i]).body@),
            r matches Ok(out) ==> out@.len() == arms@.len() && forall|i: int| 0 <= i < arms@.len() ==> {
                &&& out@[i].variant@ == (#[trigger] arms@[i]).variant@
                &&& out@[i].body@.len() == arms@[i].body@.len()
                &&& forall|j: int|
                    0 <= j < arms@[i].body@.len() ==> old(self).instantiates_s(
                        final(self).origins@,
                        #[trigger] arms@[i].body@[j],
                        out@[i].body@[j],
                    )
            },
        decreases 64 - depth, 3int, arms,
    {
        let ghost owed_plain = (forall|i: int, j: int| 0 <= i < arms@.len() && 0 <= j < arms@[i].body@.len() ==> stmt_ordinary(old(self).substitutions@, old(self).templates@, #[trigger] arms@[i].body@[j])) && (forall|i: int, f: int| 0 <= i < arms@.len() && 0 <= f < arms@[i].fields@.len() ==> substitution(old(self).substitutions@, (#[trigger] arms@[i].fields@[f]).binding@) is None);
        let ghost orig = arms@;
        let ghost start = *self;
        let mut rest = arms;
        let mut out: Vec<MatchArm> = Vec::new();
        while rest.len() > 0
            invariant
                owed_plain ==> self.untouched(old(self)),
                out@.len() + rest@.len() == orig.len(),
                rest@ == orig.skip(out@.len() as int),
                self.wf(),
                self.same_frame(&start),
                forall|i: int| 0 <= i < out@.len() ==> stmts_generic_free((#[trigger] out@[i]).body@),
                forall|i: int| 0 <= i < out@.len() ==> {
                    &&& out@[i].variant@ == (#[trigger] orig[i]).variant@
                    &&& out@[i].body@.len() == orig[i].body@.len()
                    &&& forall|j: int|
                        0 <= j < orig[i].body@.len() ==> start.instantiates_s(
                            self.origins@,
                            #[trigger] orig[i].body@[j],
                            out@[i].body@[j],
                        )
                },
            decreases rest@.len(),
        {
            let ghost k = out@.len() as int;
            let arm = rest.remove(0);
            assert(arm == orig[k]);
            assert(rest@ =~= orig.skip(k + 1));
            let mut f: usize = 0;
            while f < arm.fields.len()
                invariant
                    owed_plain ==> self.untouched(old(self)),
                    f <= arm.fields@.len(),
                decreases arm.fields@.len() - f,
            {
                self.binding(arm.fields[f].binding.as_str(), arm.fields[f].binding_span)?;
                f = f + 1;
            }
            let ghost o1 = self.origins@;
            let body = self.statements(arm.body, depth)?;
            let ghost before = out@;
            out.push(MatchArm {
                variant: arm.variant,
                variant_span: arm.variant_span,
                fields: arm.fields,
                body,
                span: arm.span,
            });
            proof {
                assert forall|i: int| 0 <= i < out@.len() implies {
                    &&& out@[i].variant@ == (#[trigger] orig[i]).variant@
                    &&& out@[i].body@.len() == orig[i].body@.len()
                    &&& forall|j: int|
                        0 <= j < orig[i].body@.len() ==> start.instantiates_s(
                            self.origins@,
                            #[trigger] orig[i].body@[j],
                            out@[i].body@[j],
                        )
                } by {
                    if i < k {
                        assert(out@[i] == before[i]);
                        lemma_stmts_grow(
                            start.substitutions@,
                            start.constants@,
                            start.templates@,
                            o1,
                            self.origins@,
                            orig[i].body@,
                            before[i].body@,
                            orig[i].body@.len() as int,
                        );
                    }
                }
            }
        }
        Ok(out)
    }

    /// Checks an iteration binding's name and replaces the parameters in its type.
    fn iteration_binding(&self, binding: IterationBinding) -> (r: Result<IterationBinding, Diagnostic>)
        ensures
            r matches Ok(b) ==> substitutes_binding(self.substitutions@, binding, b),
            self.substitutions@.len() == 0 ==> r is Ok,
            binding_ordinary(self.substitutions@, binding) ==> r is Ok,
    {
        self.binding(binding.name.as_str(), binding.span)?;
        let type_spec = self.spec(binding.type_spec)?;
        Ok(IterationBinding { mutable: binding.mutable, name: binding.name, type_spec, span: binding.span })
    }

    /// Instantiates every generic call in a statement, and refuses bindings
    /// that hide a generic parameter.
    #[verifier::loop_isolation(false)]
    fn statement(&mut self, statement: Stmt, depth: usize) -> (r: Result<Stmt, Diagnostic>)
        requires
            old(self).wf(),
            depth == old(self).active@.len(),
        ensures
            r is Ok ==> final(self).wf() && final(self).same_frame(old(self)),
            old(self).plain() && stmt_generic_free(statement) ==> r is Ok,
            stmt_ordinary(old(self).substitutions@, old(self).templates@, statement) ==> r is Ok && final(self).untouched(old(self)),
            r matches Ok(s) ==> stmt_generic_free(s) && s.span == statement.span,
            r matches Ok(s) ==> old(self).instantiates_s(final(self).origins@, statement, s),
        decreases 64 - depth, 3int, statement,
    {
        let ghost start = *self;
        let ghost whole = statement;
        let span = statement.span;
        let kind = match statement.kind {
            StmtKind::Block(body) => StmtKind::Block(self.statements(body, depth)?),
            StmtKind::Binding { mutable, name, type_spec, value } => {
                self.binding(name.as_str(), span)?;
                let type_spec = self.spec(type_spec)?;
                let value = self.expr(value, depth)?;
                StmtKind::Binding { mutable, name, type_spec, value }
            },
            StmtKind::Assignment { target, value } => {
                self.binding(target.name.as_str(), target.span)?;
                let ghost given = target.projections@;
                let projections = self.projections(target.projections, depth)?;
                let ghost o1 = self.origins@;
                let value = self.expr(value, depth)?;
                proof {
                    assert forall|i: int| 0 <= i < given.len() implies instantiates_expr(
                        start.substitutions@, start.constants@, start.templates@,
                        self.origins@,
                        (#[trigger] given[i])->index,
                        projections@[i]->index,
                    ) by {
                        lemma_expr_grows(start.substitutions@, start.constants@, start.templates@, o1, self.origins@, given[i]->index, projections@[i]->index);
                    }
                }
                StmtKind::Assignment {
                    target: AssignmentTarget {
                        name: target.name,
                        name_span: target.name_span,
                        projections,
                        span: target.span,
                    },
                    value,
                }
            },
            StmtKind::Print { value } => StmtKind::Print { value: self.expr(value, depth)? },
            StmtKind::Call { value } => StmtKind::Call { value: self.expr(value, depth)? },
            StmtKind::Return { value } => StmtKind::Return {
                value: match value {
                    Some(v) => Some(self.expr(v, depth)?),
                    None => None,
                },
            },
            StmtKind::If { condition, then_body, else_body } => {
                let ghost c0 = condition;
                let ghost t0 = then_body@;
                let condition = self.expr(condition, depth)?;
                let ghost o1 = self.origins@;
                let then_body = self.statements(then_body, depth)?;
                let ghost o2 = self.origins@;
                let else_body = self.statements(else_body, depth)?;
                proof {
                    lemma_expr_grows(start.substitutions@, start.constants@, start.templates@, o1, self.origins@, c0, condition);
                    lemma_stmts_grow(start.substitutions@, start.constants@, start.templates@, o2, self.origins@, t0, then_body@, t0.len() as int);
                }
                StmtKind::If { condition, then_body, else_body }
            },
            StmtKind::While { condition, body } => {
                let ghost c0 = condition;
                let condition = self.expr(condition, depth)?;
                let ghost o1 = self.origins@;
                let body = self.statements(body, depth)?;
                proof {
                    lemma_expr_grows(start.substitutions@, start.constants@, start.templates@, o1, self.origins@, c0, condition);
                }
                StmtKind::While { condition, body }
            },
            StmtKind::For { initializer, condition, update, body } => {
                let ghost i0 = *initializer;
                let ghost c0 = condition;
                let ghost u0 = *update;
                let initializer = self.statement(*initializer, depth)?;
                let ghost o1 = self.origins@;
                let condition = self.expr(condition, depth)?;
                let ghost o2 = self.origins@;
                let update = self.statement(*update, depth)?;
                let ghost o3 = self.origins@;
                let body = self.statements(body, depth)?;
                proof {
                    lemma_stmt_grows(start.substitutions@, start.constants@, start.templates@, o1, self.origins@, i0, initializer);
                    lemma_expr_grows(start.substitutions@, start.constants@, start.templates@, o2, self.origins@, c0, condition);
                    lemma_stmt_grows(start.substitutions@, start.constants@, start.templates@, o3, self.origins@, u0, update);
                }
                StmtKind::For {
                    initializer: Box::new(initializer),
                    condition,
                    update: Box::new(update),
                    body,
                }
            },
            StmtKind::ForEach { index, element, value, body, header_span } => {
                let index = match index {
                    Some(b) => Some(self.iteration_binding(b)?),
                    None => None,
                };
                let element = self.iteration_binding(element)?;
                let ghost v0 = value;
                let value = self.expr(value, depth)?;
                let ghost o1 = self.origins@;
                let body = self.statements(body, depth)?;
                proof {
                    lemma_expr_grows(start.substitutions@, start.constants@, start.templates@, o1, self.origins@, v0, value);
                }
                StmtKind::ForEach { index, element, value, body, header_span }
            },
            StmtKind::Match { value, arms } => {
                let ghost v0 = value;
                let value = self.expr(value, depth)?;
                let ghost o1 = self.origins@;
                let arms = self.arms(arms, depth)?;
                proof {
                    lemma_expr_grows(start.substitutions@, start.constants@, start.templates@, o1, self.origins@, v0, value);
                }
                StmtKind::Match { value, arms }
            },
            StmtKind::Break => StmtKind::Break,
            StmtKind::Continue => StmtKind::Continue,
        };
        let r = Stmt { kind, span };
        assert(stmt_generic_free(r));
        assert(start.instantiates_s(self.origins@, whole, r));
        Ok(r)
    }

    /// Checks a function's parameter names, replaces the parameters in its
    /// types and instantiates every generic call in its body.
    #[verifier::loop_isolation(false)]
    fn function(&mut self, d: FunctionDefinition, depth: usize) -> (r: Result<FunctionDefinition, Diagnostic>)
        requires
            old(self).wf(),
            depth == old(self).active@.len(),
        ensures
            r is Ok ==> final(self).wf() && final(self).same_frame(old(self)),
            old(self).plain() && stmts_generic_free(d.body@) ==> r is Ok,
            function_ordinary(old(self).substitutions@, old(self).templates@, d) ==> r is Ok && final(self).untouched(old(self)),
            r matches Ok(f) ==> f.name == d.name && f.name_span == d.name_span && f.span == d.span
                && f.generic_parameters == d.generic_parameters && stmts_generic_free(f.body@),
            r matches Ok(f) ==> instantiates_function(
                old(self).substitutions@,
                old(self).constants@,
                old(self).templates@,
                final(self).origins@,
                d,
                f,
            ),
        decreases 64 - depth, 4int, d,
    {
        let ghost start = *self;
        let ghost orig = d.parameters@;
        let mut rest = d.parameters;
        let mut parameters: Vec<Parameter> = Vec::new();
        while rest.len() > 0
            invariant
                self.wf(),
                self.same_frame(&start),
                *self == start,
                parameters@.len() + rest@.len() == orig.len(),
                rest@ == orig.skip(parameters@.len() as int),
                forall|i: int| 0 <= i < parameters@.len() ==> {
                    &&& parameters@[i].name@ == (#[trigger] orig[i]).name@
                    &&& substituted_type(start.substitutions@, orig[i].type_ref) == Ok::<TypeRef, (Seq<char>, Span)>(
                        parameters@[i].type_ref,
                    )
                },
            decreases rest@.len(),
        {
            let ghost k = parameters@.len() as int;
            let p = rest.remove(0);
            assert(p == orig[k]);
            assert(rest@ =~= orig.skip(k + 1));
            self.binding(p.name.as_str(), p.name_span)?;
            let type_ref = self.ty(p.type_ref)?;
            let ghost before = parameters@;
            parameters.push(Parameter { name: p.name, name_span: p.name_span, type_ref, span: p.span });
            proof {
                assert forall|i: int| 0 <= i < parameters@.len() implies {
                    &&& parameters@[i].name@ == (#[trigger] orig[i]).name@
                    &&& substituted_type(start.substitutions@, orig[i].type_ref) == Ok::<TypeRef, (Seq<char>, Span)>(
                        parameters@[i].type_ref,
                    )
                } by {
                    if i < k {
                        assert(parameters@[i] == before[i]);
                    }
                }
            }
        }
        let return_type = match d.return_type {
            ReturnTypeRef::Void(s) => ReturnTypeRef::Void(s),
            ReturnTypeRef::Value(ty) => ReturnTypeRef::Value(self.ty(ty)?),
        };
        let body = self.statements(d.body, depth)?;
        Ok(FunctionDefinition {
            generic_parameters: d.generic_parameters,
            name: d.name,
            name_span: d.name_span,
            parameters,
            return_type,
            body,
            span: d.span,
        })
    }
}

/// `item` defines a function with generic parameters.
pub open spec fn is_template(item: Item) -> bool {
    item matches Item::FunctionDefinition(d) && d.generic_parameters@.len() > 0
}

/// The items that are not generic functions, in order.
pub open spec fn ordinary_items(items: Seq<Item>) -> Seq<Item>
    decreases items.len(),
{
    if items.len() == 0 {
        Seq::empty()
    } else {
        let rest = ordinary_items(items.drop_last());
        if is_template(items.last()) { rest } else { rest.push(items.last()) }
    }
}

/// The generic function definitions, in order.
pub open spec fn template_definitions(items: Seq<Item>) -> Seq<FunctionDefinition>
    decreases items.len(),
{
    if items.len() == 0 {
        Seq::empty()
    } else {
        let rest = template_definitions(items.drop_last());
        match items.last() {
            Item::FunctionDefinition(d) => if d.generic_parameters@.len() > 0 { rest.push(d) } else { rest },
            _ => rest,
        }
    }
}

/// `a` and `b` are items of one kind that declare the same name.
pub open spec fn same_declaration(a: Item, b: Item) -> bool {
    match (a, b) {
        (Item::ConstantDefinition(x), Item::ConstantDefinition(y)) => x.name@ == y.name@,
        (Item::TypeDefinition(x), Item::TypeDefinition(y)) => x.name@ == y.name@,
        (Item::FunctionDefinition(x), Item::FunctionDefinition(y)) => x.name@ == y.name@,
        (Item::Statement(_), Item::Statement(_)) => true,
        _ => false,
    }
}

/// Every item of `items` but the templates is `item_ordinary` over the
/// templates of `items`: no generic call, and no plain call of a template.
pub open spec fn ordinary_program(items: Seq<Item>) -> bool {
    forall|i: int| 0 <= i < items.len() && !is_template(#[trigger] items[i]) ==> item_ordinary(Seq::empty(), template_definitions(items), items[i])
}

proof fn lemma_ordinary_items_ordinary(items: Seq<Item>, templates: Seq<FunctionDefinition>)
    requires
        forall|i: int| 0 <= i < items.len() && !is_template(#[trigger] items[i]) ==> item_ordinary(Seq::empty(), templates, items[i]),
    ensures
        forall|i: int| 0 <= i < ordinary_items(items).len() ==> item_ordinary(Seq::empty(), templates, #[trigger] ordinary_items(items)[i]),
    decreases items.len(),
{
    if items.len() > 0 {
        let front = items.drop_last();
        assert forall|i: int| 0 <= i < front.len() && !is_template(#[trigger] front[i]) implies item_ordinary(Seq::empty(), templates, front[i]) by {
            assert(front[i] == items[i]);
        }
        lemma_ordinary_items_ordinary(front, templates);
        let rest = ordinary_items(front);
        if !is_template(items.last()) {
            assert forall|i: int| 0 <= i < rest.len() + 1 implies item_ordinary(Seq::empty(), templates, #[trigger] rest.push(items.last())[i]) by {
                if i < rest.len() {
                    assert(rest.push(items.last())[i] == rest[i]);
                } else {
                    assert(item_ordinary(Seq::empty(), templates, items[items.len() - 1]));
                }
            }
        }
    }
}

proof fn lemma_ordinary_not_templates(items: Seq<Item>)
    ensures
        forall|i: int| 0 <= i < ordinary_items(items).len() ==> !is_template(#[trigger] ordinary_items(items)[i]),
    decreases items.len(),
{
    if items.len() > 0 {
        let rest = ordinary_items(items.drop_last());
        lemma_ordinary_not_templates(items.drop_last());
        if !is_template(items.last()) {
            assert forall|i: int| 0 <= i < rest.len() + 1 implies !is_template(#[trigger] rest.push(items.last())[i]) by {
                if i < rest.len() {
                    assert(rest.push(items.last())[i] == rest[i]);
                }
            }
        }
    }
}

impl<'a> Expander<'a> {
    /// Instantiates every generic call in the default values of fields.
    #[verifier::loop_isolation(false)]
    fn defaults(&mut self, fields: Vec<FieldDefinition>) -> (r: Result<Vec<FieldDefinition>, Diagnostic>)
        requires
            old(self).wf(),
            old(self).active@.len() == 0,
            old(self).substitutions@.len() == 0,
        ensures
            r is Ok ==> final(self).wf() && final(self).same_frame(old(self)),
            old(self).plain() && defaults_generic_free(fields@) ==> r is Ok,
            defaults_ordinary(old(self).substitutions@, old(self).templates@, fields@) ==> r is Ok && final(self).untouched(old(self)),
            r matches Ok(out) ==> defaults_generic_free(out@),
            r matches Ok(out) ==> instantiates_fields(old(self).constants@, old(self).templates@, final(self).origins@, fields@, out@),
    {
        let ghost owed_plain = defaults_ordinary(old(self).substitutions@, old(self).templates@, fields@);
        let ghost start = *self;
        let ghost orig = fields@;
        let mut rest = fields;
        let mut out: Vec<FieldDefinition> = Vec::new();
        assert(start.substitutions@ =~= Seq::<(String, Argument)>::empty());
        while rest.len() > 0
            invariant
                owed_plain ==> self.untouched(old(self)),
                self.wf(),
                self.same_frame(&start),
                start.substitutions@ == Seq::<(String, Argument)>::empty(),
                out@.len() + rest@.len() == orig.len(),
                rest@ == orig.skip(out@.len() as int),
                defaults_generic_free(out@),
                instantiates_fields(start.constants@, start.templates@, self.origins@, orig.take(out@.len() as int), out@),
            decreases rest@.len(),
        {
            let ghost k = out@.len() as int;
            let field = rest.remove(0);
            assert(field == orig[k]);
            assert(rest@ =~= orig.skip(k + 1));
            let ghost o1 = self.origins@;
            let default = match field.default {
                Some(v) => Some(self.expr(v, 0)?),
                None => None,
            };
            proof {
                lemma_fields_grow(start.constants@, start.templates@, o1, self.origins@, orig.take(k), out@);
            }
            let ghost before = out@;
            out.push(FieldDefinition {
                name: field.name,
                name_span: field.name_span,
                type_ref: field.type_ref,
                default,
                span: field.span,
            });
            proof {
                let a = orig.take(k + 1);
                assert forall|i: int| 0 <= i < a.len() implies {
                    &&& out@[i].name@ == (#[trigger] a[i]).name@
                    &&& out@[i].type_ref == a[i].type_ref
                    &&& match a[i].default {
                        Some(x) => (out@[i].default matches Some(y) && instantiates_expr(
                            Seq::empty(),
                            start.constants@,
                            start.templates@,
                            self.origins@,
                            x,
                            y,
                        )),
                        None => out@[i].default is None,
                    }
                } by {
                    if i < k {
                        assert(out@[i] == before[i]);
                        assert(a[i] == orig.take(k)[i]);
                    }
                }
                assert(defaults_generic_free(out@)) by {
                    assert forall|i: int| 0 <= i < out@.len() implies ((#[trigger] out@[i]).default matches Some(v)
                        ==> expr_generic_free(v)) by {
                        if i < k {
                            assert(out@[i] == before[i]);
                        }
                    }
                }
            }
        }
        assert(orig.take(orig.len() as int) =~= orig);
        Ok(out)
    }

    /// Instantiates every generic call in the defaults of enum payload fields.
    #[verifier::loop_isolation(false)]
    fn variants(&mut self, variants: Vec<VariantDefinition>) -> (r: Result<Vec<VariantDefinition>, Diagnostic>)
        requires
            old(self).wf(),
            old(self).active@.len() == 0,
            old(self).substitutions@.len() == 0,
        ensures
            r is Ok ==> final(self).wf() && final(self).same_frame(old(self)),
            old(self).plain() && (forall|i: int| 0 <= i < variants@.len() ==> defaults_generic_free((#[trigger] variants@[i]).fields@)) ==> r is Ok,
            (forall|i: int| 0 <= i < variants@.len() ==> defaults_ordinary(old(self).substitutions@, old(self).templates@, (#[trigger] variants@[i]).fields@)) ==> r is Ok && final(self).untouched(old(self)),
            r matches Ok(out) ==> forall|i: int| 0 <= i < out@.len() ==> defaults_generic_free((#[trigger] out@[i]).fields@),
            r matches Ok(out) ==> out@.len() == variants@.len() && forall|i: int|
                0 <= i < variants@.len() ==> out@[i].name@ == (#[trigger] variants@[i]).name@ && instantiates_fields(
                    old(self).constants@,
                    old(self).templates@,
                    final(self).origins@,
                    variants@[i].fields@,
                    out@[i].fields@,
                ),
    {
        let ghost owed_plain = (forall|i: int| 0 <= i < variants@.len() ==> defaults_ordinary(old(self).substitutions@, old(self).templates@, (#[trigger] variants@[i]).fields@));
        let ghost start = *self;
        let ghost orig = variants@;
        let mut rest = variants;
        let mut out: Vec<VariantDefinition> = Vec::new();
        while rest.len() > 0
            invariant
                owed_plain ==> self.untouched(old(self)),
                self.wf(),
                self.same_frame(&start),
                out@.len() + rest@.len() == orig.len(),
                rest@ == orig.skip(out@.len() as int),
                forall|i: int| 0 <= i < out@.len() ==> defaults_generic_free((#[trigger] out@[i]).fields@),
                forall|i: int| 0 <= i < out@.len() ==> out@[i].name@ == (#[trigger] orig[i]).name@ && instantiates_fields(
                    start.constants@,
                    start.templates@,
                    self.origins@,
                    orig[i].fields@,
                    out@[i].fields@,
                ),
            decreases rest@.len(),
        {
            let ghost k = out@.len() as int;
            let variant = rest.remove(0);
            assert(variant == orig[k]);
            assert(rest@ =~= orig.skip(k + 1));
            let ghost o1 = self.origins@;
            let fields = self.defaults(variant.fields)?;
            let ghost before = out@;
            out.push(VariantDefinition {
                name: variant.name,
                name_span: variant.name_span,
                fields,
                span: variant.span,
            });
            proof {
                assert forall|i: int| 0 <= i < out@.len() implies out@[i].name@ == (#[trigger] orig[i]).name@
                    && instantiates_fields(start.constants@, start.templates@, self.origins@, orig[i].fields@, out@[i].fields@) by {
                    if i < k {
                        assert(out@[i] == before[i]);
                        lemma_fields_grow(start.constants@, start.templates@, o1, self.origins@, orig[i].fields@, before[i].fields@);
                    }
                }
                assert forall|i: int| 0 <= i < out@.len() implies defaults_generic_free((#[trigger] out@[i]).fields@) by {
                    if i < k {
                        assert(out@[i] == before[i]);
                    }
                }
            }
        }
        Ok(out)
    }

    /// Instantiates every generic call in an item that is not a template.
    fn item(&mut self, item: Item) -> (r: Result<Item, Diagnostic>)
        requires
            old(self).wf(),
            old(self).active@.len() == 0,
            old(self).substitutions@.len() == 0,
            !is_template(item),
        ensures
            r is Ok ==> final(self).wf() && final(self).same_frame(old(self)),
            old(self).plain() && item_generic_free(item) ==> r is Ok,
            item_ordinary(old(self).substitutions@, old(self).templates@, item) ==> r is Ok && final(self).untouched(old(self)),
            r matches Ok(out) ==> item_generic_free(out) && same_declaration(out, item),
            r matches Ok(out) ==> instantiates_item(old(self).constants@, old(self).templates@, final(self).origins@, item, out),
    {
        let ghost start = *self;
        assert(start.substitutions@ =~= Seq::<(String, Argument)>::empty());
        match item {
            Item::ConstantDefinition(d) => {
                let value = self.expr(d.value, 0)?;
                Ok(Item::ConstantDefinition(ConstantDefinition {
                    name: d.name,
                    name_span: d.name_span,
                    type_ref: d.type_ref,
                    value,
                    span: d.span,
                }))
            },
            Item::TypeDefinition(d) => {
                let fields = self.defaults(d.fields)?;
                let ghost o1 = self.origins@;
                let ghost given = d.fields@;
                let variants = match d.variants {
                    Some(vs) => Some(self.variants(vs)?),
                    None => None,
                };
                proof {
                    lemma_fields_grow(start.constants@, start.templates@, o1, self.origins@, given, fields@);
                }
                Ok(Item::TypeDefinition(TypeDefinition {
                    variants,
                    name: d.name,
                    name_span: d.name_span,
                    fields,
                    span: d.span,
                }))
            },
            Item::FunctionDefinition(d) => Ok(Item::FunctionDefinition(self.function(d, 0)?)),
            Item::Statement(s) => Ok(Item::Statement(self.statement(s, 0)?)),
        }
    }
}

/// A program without generic functions or generic calls has no template,
/// and each of its ordinary items is free of them too.
proof fn lemma_no_templates(items: Seq<Item>)
    requires
        forall|i: int| 0 <= i < items.len() ==> item_generic_free(#[trigger] items[i]),
    ensures
        template_definitions(items).len() == 0,
        forall|i: int| 0 <= i < ordinary_items(items).len() ==> item_generic_free(#[trigger] ordinary_items(items)[i]),
    decreases items.len(),
{
    if items.len() > 0 {
        let rest = items.drop_last();
        assert forall|i: int| 0 <= i < rest.len() implies item_generic_free(#[trigger] rest[i]) by {
            assert(rest[i] == items[i]);
        }
        lemma_no_templates(rest);
        assert(item_generic_free(items[items.len() - 1]));
        let o = ordinary_items(items);
        let o0 = ordinary_items(rest);
        assert forall|i: int| 0 <= i < o.len() implies item_generic_free(#[trigger] o[i]) by {
            if i < o0.len() {
                assert(o[i] == o0[i]);
            }
        }
    }
}

/// Instantiates generic functions: checks every function definition, then
/// replaces each explicit generic call by a call of an ordinary function
/// made for its template and argument list, and removes the templates.
/// Constant array lengths and constant generic lengths take the values in
/// `constants`. A program whose ordinary items make no generic call and call
/// no template plainly lowers with no instance made and no type argument
/// recorded, whatever templates it defines.
pub fn lower(program: Program, constants: &Vec<EvaluatedConstant>) -> (r: Result<Lowered, Diagnostic>)
    ensures
        template_problem(program.items@, program.items@.len()) matches Some((message, span))
            ==> r matches Err(e) && e.message@ == message && e.span == Some(span),
        r matches Ok(l) ==> {
            let ordinary = ordinary_items(program.items@);
            let out = l.program.items@;
            &&& template_problem(program.items@, program.items@.len()) is None
            &&& out.len() == ordinary.len() + l.origins@.len()
            &&& forall|i: int| 0 <= i < out.len() ==> item_generic_free(#[trigger] out[i])
            &&& forall|i: int| 0 <= i < ordinary.len() ==> same_declaration(#[trigger] out[i], ordinary[i])
            &&& forall|i: int| ordinary.len() <= i < out.len()
                ==> (#[trigger] out[i] matches Item::FunctionDefinition(d) && names_origin(l.origins@, d.name@))
            &&& origins_well_formed(l.origins@, template_definitions(program.items@))
            &&& forall|i: int| 0 <= i < ordinary.len() ==> instantiates_item(
                constants@,
                template_definitions(program.items@),
                l.origins@,
                #[trigger] ordinary[i],
                out[i],
            )
        },
        template_problem(program.items@, program.items@.len()) is None && (forall|i: int|
            0 <= i < program.items@.len() ==> item_generic_free(#[trigger] program.items@[i])) ==> r is Ok,
        template_problem(program.items@, program.items@.len()) is None && ordinary_program(program.items@) ==> (r matches Ok(l)
            && l.origins@.len() == 0 && l.types@.len() == 0 && l.program.items@.len() == ordinary_items(program.items@).len()),
{
    let ghost owed = template_problem(program.items@, program.items@.len()) is None && ordinary_program(program.items@);
    let ghost plain_program = forall|i: int|
        0 <= i < program.items@.len() ==> item_generic_free(#[trigger] program.items@[i]);
    proof {
        if plain_program {
            lemma_no_templates(program.items@);
        }
    }
    check_templates(&program.items)?;
    let mut type_names: Vec<String> = Vec::new();
    let mut i: usize = 0;
    while i < program.items.len()
        invariant
            i <= program.items@.len(),
        decreases program.items@.len() - i,
    {
        if let Item::TypeDefinition(d) = &program.items[i] {
            type_names.push(d.name.clone());
        }
        i = i + 1;
    }
    let ghost orig = program.items@;
    let mut remaining = program.items;
    let mut templates: Vec<FunctionDefinition> = Vec::new();
    let mut ordinary: Vec<Item> = Vec::new();
    let ghost mut k: int = 0;
    while remaining.len() > 0
        invariant
            0 <= k <= orig.len(),
            remaining@ == orig.skip(k),
            templates@ == template_definitions(orig.take(k)),
            ordinary@ == ordinary_items(orig.take(k)),
        decreases remaining@.len(),
    {
        let item = remaining.remove(0);
        proof {
            assert(item == orig[k]);
            assert(remaining@ =~= orig.skip(k + 1));
            assert(orig.take(k + 1).drop_last() =~= orig.take(k));
            assert(orig.take(k + 1).last() == orig[k]);
        }
        match item {
            Item::FunctionDefinition(d) => {
                if d.generic_parameters.len() > 0 {
                    templates.push(d);
                } else {
                    ordinary.push(Item::FunctionDefinition(d));
                }
            },
            other => ordinary.push(other),
        }
        proof {
            k = k + 1;
        }
    }
    proof {
        assert(orig.take(k) =~= orig);
        lemma_ordinary_not_templates(orig);
    }
    let mut expander = Expander {
        templates,
        type_names,
        constants,
        instances: Vec::new(),
        origins: Vec::new(),
        types: Vec::new(),
        array_length_uses: Vec::new(),
        active: Vec::new(),
        substitutions: Vec::new(),
    };
    let ghost start = expander;
    let ghost plain = ordinary@;
    proof {
        if owed {
            lemma_ordinary_items_ordinary(orig, template_definitions(orig));
        }
    }
    let mut rest = ordinary;
    let mut out: Vec<Item> = Vec::new();
    while rest.len() > 0
        invariant
            out@.len() + rest@.len() == plain.len(),
            rest@ == plain.skip(out@.len() as int),
            plain == ordinary_items(orig),
            forall|i: int| 0 <= i < plain.len() ==> !is_template(#[trigger] plain[i]),
            expander.wf(),
            expander.same_frame(&start),
            start.active@.len() == 0,
            template_problem(orig, orig.len()) is None,
            orig == program.items@,
            start.templates@ == template_definitions(orig),
            start.substitutions@.len() == 0,
            start.constants@ == constants@,
            plain_program == forall|i: int| 0 <= i < program.items@.len() ==> item_generic_free(#[trigger] program.items@[i]),
            plain_program ==> start.templates@.len() == 0,
            owed == (template_problem(program.items@, program.items@.len()) is None && ordinary_program(program.items@)),
            owed ==> expander.untouched(&start),
            owed ==> forall|i: int| 0 <= i < plain.len() ==> item_ordinary(start.substitutions@, start.templates@, #[trigger] plain[i]),
            start.origins@.len() == 0,
            start.instances@.len() == 0,
            start.types@.len() == 0,
            plain_program ==> forall|i: int| 0 <= i < plain.len() ==> item_generic_free(#[trigger] plain[i]),
            forall|i: int| 0 <= i < out@.len() ==> item_generic_free(#[trigger] out@[i]),
            forall|i: int| 0 <= i < out@.len() ==> same_declaration(#[trigger] out@[i], plain[i]),
            forall|i: int| 0 <= i < out@.len() ==> instantiates_item(
                constants@,
                start.templates@,
                expander.origins@,
                #[trigger] plain[i],
                out@[i],
            ),
        decreases rest@.len(),
    {
        let ghost n = out@.len() as int;
        let item = rest.remove(0);
        assert(item == plain[n]);
        assert(rest@ =~= plain.skip(n + 1));
        let ghost o1 = expander.origins@;
        proof {
            if plain_program {
                assert(item_generic_free(plain[n]));
                assert(expander.templates@ == start.templates@);
                assert(expander.substitutions@ == start.substitutions@);
                assert(expander.plain());
            }
        }
        let lowered = expander.item(item)?;
        let ghost before = out@;
        out.push(lowered);
        proof {
            assert forall|i: int| 0 <= i < out@.len() implies instantiates_item(
                constants@,
                start.templates@,
                expander.origins@,
                #[trigger] plain[i],
                out@[i],
            ) by {
                if i < n {
                    assert(out@[i] == before[i]);
                    lemma_item_grows(constants@, start.templates@, o1, expander.origins@, plain[i], before[i]);
                }
            }
        }
    }
    let ghost base = out@.len();
    let mut instances = expander.instances;
    let ghost made = instances@;
    while instances.len() > 0
        invariant
            base == plain.len(),
            owed ==> made.len() == 0,
            out@.len() + instances@.len() == base + made.len(),
            instances@ == made.skip(out@.len() - base),
            out@.len() >= base,
            forall|i: int| 0 <= i < made.len() ==> function_generic_free(#[trigger] made[i]),
            forall|i: int| 0 <= i < made.len() ==> names_origin(expander.origins@, (#[trigger] made[i]).name@),
            forall|i: int| 0 <= i < out@.len() ==> item_generic_free(#[trigger] out@[i]),
            forall|i: int| 0 <= i < base ==> same_declaration(#[trigger] out@[i], plain[i]),
            forall|i: int| base <= i < out@.len() ==> (#[trigger] out@[i] matches Item::FunctionDefinition(d)
                && names_origin(expander.origins@, d.name@)),
            plain == ordinary_items(orig),
            orig == program.items@,
            forall|i: int| 0 <= i < base ==> instantiates_item(
                constants@,
                template_definitions(orig),
                expander.origins@,
                #[trigger] plain[i],
                out@[i],
            ),
        decreases instances@.len(),
    {
        let ghost m = out@.len() - base;
        let d = instances.remove(0);
        assert(d == made[m]);
        assert(instances@ =~= made.skip(m + 1));
        let ghost before = out@;
        out.push(Item::FunctionDefinition(d));
        proof {
            assert forall|i: int| 0 <= i < base implies instantiates_item(
                constants@,
                template_definitions(orig),
                expander.origins@,
                #[trigger] plain[i],
                out@[i],
            ) by {
                assert(out@[i] == before[i]);
            }
        }
    }
    Ok(Lowered {
        program: Program { items: out },
        origins: expander.origins,
        types: expander.types,
        array_length_uses: expander.array_length_uses,
    })
}

/// The key text of a concrete type.
fn type_key_text(ty: &TypeRef) -> (r: String)
    requires
        constant_free(*ty),
    ensures
        r@ == type_key(*ty),
    decreases ty,
{
    match &ty.kind {
        TypeRefKind::Named(n) => String::from_str(n.as_str()),
        TypeRefKind::Array { element, length } => {
            let mut r = String::from_str("[");
            let inner = type_key_text(element);
            r.append(inner.as_str());
            r.append("; ");
            let digits = decimal_text(*length as u64);
            r.append(digits.as_str());
            r.append("]");
            r
        },
        TypeRefKind::ArrayConstant { .. } => {
            vstd::pervasive::unreached()
        },
    }
}

} // verus!
