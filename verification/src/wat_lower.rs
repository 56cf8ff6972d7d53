//! The parts of lowering a checked program to WebAssembly that lay out
//! memory: the Wasm type of each scalar, the element shape of arrays, the
//! bytes that each type takes in linear memory, and where each local
//! binding of a function lives.
use crate::c_lower::{dependency_at, dependency_of, ranked, references_valid, spec_named_dependency};
use crate::ir;
use crate::llvm_lower::{count_of, counted, counts_bounded, counts_view, find_count, slot_name};
use crate::text::decimal_text;
use vstd::prelude::*;

verus! {

/// A WebAssembly value type as the lowering uses it.
#[derive(Debug, Clone, Copy, PartialEq, Eq, Structural)]
pub enum Type {
    String,
    Bool,
    I64,
    F32,
    F64,
    Pointer,
}

/// The Wasm type of a scalar checked type: every integer is an `i64`.
pub open spec fn wasm_scalar(ty: ir::Type) -> Type {
    match ty {
        ir::Type::String => Type::String,
        ir::Type::Bool => Type::Bool,
        ir::Type::Integer(_) => Type::I64,
        ir::Type::F32 => Type::F32,
        _ => Type::F64,
    }
}

/// Whether a checked type is held in one Wasm value.
pub open spec fn is_scalar(ty: ir::Type) -> bool {
    !(ty is Named) && !(ty is Array)
}

/// The Wasm type of a scalar checked type.
pub fn scalar_type(ty: &ir::Type) -> (r: Type)
    requires
        is_scalar(*ty),
    ensures
        r == wasm_scalar(*ty),
{
    match ty {
        ir::Type::String => Type::String,
        ir::Type::Bool => Type::Bool,
        ir::Type::Integer(_) => Type::I64,
        ir::Type::F32 => Type::F32,
        _ => Type::F64,
    }
}

/// The number of bits of a floating Wasm type.
pub open spec fn wasm_float_bits(t: Type) -> Option<nat> {
    match t {
        Type::F32 => Some(32),
        Type::F64 => Some(64),
        _ => None,
    }
}

/// The number of bits of an integer Wasm type.
pub open spec fn wasm_integer_bits(t: Type) -> Option<nat> {
    match t {
        Type::I64 => Some(64),
        _ => None,
    }
}

/// A scalar and its Wasm type hold the same kind of value: a float at its
/// own width, an integer in a 64-bit integer wide enough for its type,
/// strings and booleans as such; no scalar is a pointer.
pub proof fn lemma_scalar_type_keeps_values(ty: ir::Type)
    requires
        is_scalar(ty),
    ensures
        wasm_float_bits(wasm_scalar(ty)) == ir::float_bits(ty),
        ty matches ir::Type::Integer(t) ==> (wasm_integer_bits(wasm_scalar(ty)) matches Some(bits) && bits
            >= crate::types::spec_bit_width(t)),
        ty is Integer <==> wasm_integer_bits(wasm_scalar(ty)) is Some,
        ty is Bool <==> wasm_scalar(ty) is Bool,
        ty is String <==> wasm_scalar(ty) is String,
        !(wasm_scalar(ty) is Pointer),
{
}

/// The element shape of an array keeps what its element type holds:
/// scalars by their Wasm type, a defined type by its id, and an inner
/// array by its length and its own element shape.
pub proof fn lemma_element_shape_keeps_values(element: ir::Type)
    ensures
        is_scalar(element) ==> element_shape(element) == ArrayElement::Scalar(wasm_scalar(element)),
        element matches ir::Type::Named(id) ==> element_shape(element) == ArrayElement::Named(id.0),
        element matches ir::Type::Array { element: inner, length } ==> (element_shape(element) matches ArrayElement::Array {
            element: e,
            length: l,
        } && l == length && *e == element_shape(*inner)),
{
}

/// What an array holds: scalars, values of a defined type, or arrays.
#[derive(Debug, PartialEq, Eq)]
pub enum ArrayElement {
    Scalar(Type),
    Named(usize),
    Array { element: Box<ArrayElement>, length: usize },
}

/// The element shape of an array whose elements have type `element`.
pub open spec fn element_shape(element: ir::Type) -> ArrayElement
    decreases element,
{
    match element {
        ir::Type::Named(id) => ArrayElement::Named(id.0),
        ir::Type::Array { element, length } => ArrayElement::Array { element: Box::new(element_shape(*element)), length },
        _ => ArrayElement::Scalar(wasm_scalar(element)),
    }
}

/// The element shape of an array whose elements have type `element`.
pub fn array_element_type(element: &ir::Type) -> (r: ArrayElement)
    ensures
        r == element_shape(*element),
    decreases element,
{
    match element {
        ir::Type::Named(id) => ArrayElement::Named(id.0),
        ir::Type::Array { element, length } => ArrayElement::Array {
            element: Box::new(array_element_type(element)),
            length: *length,
        },
        _ => ArrayElement::Scalar(scalar_type(element)),
    }
}

/// How deeply arrays nest in `ty`.
pub open spec fn type_height(ty: ir::Type) -> nat
    decreases ty,
{
    match ty {
        ir::Type::Array { element, .. } => 1 + type_height(*element),
        _ => 0,
    }
}

/// One more than the rank of the defined type that `ty` reaches, if any.
pub open spec fn size_measure(rank: spec_fn(int) -> nat, ty: ir::Type) -> nat
    decreases ty,
{
    match ty {
        ir::Type::Named(id) => rank(id.0 as int) + 1,
        ir::Type::Array { element, .. } => size_measure(rank, *element),
        _ => 0,
    }
}

/// The measure follows the defined type that `ty` depends on.
pub proof fn lemma_size_measure(rank: spec_fn(int) -> nat, ty: ir::Type)
    ensures
        size_measure(rank, ty) == match spec_named_dependency(ty) {
            Some(d) => rank(d as int) + 1,
            None => 0,
        },
    decreases ty,
{
    if let ir::Type::Array { element, .. } = ty {
        lemma_size_measure(rank, *element);
    }
}

/// The bytes a value of type `ty` takes in linear memory: eight for a
/// scalar, the sum over the fields for a defined type, and the element
/// size times the length for an array.
pub open spec fn sized(program: ir::Program, rank: spec_fn(int) -> nat, ty: ir::Type) -> nat
    decreases size_measure(rank, ty), 2nat, type_height(ty), 0nat
    when ranked(program, rank)
{
    match ty {
        ir::Type::Named(id) => if id.0 < program.type_definitions@.len() {
            fields_sized(program, rank, id.0 as int, program.type_definitions@[id.0 as int].fields@.len() as int)
        } else {
            0
        },
        ir::Type::Array { element, length } => sized(program, rank, *element) * (length as nat),
        _ => 8,
    }
}

/// A scalar takes enough bytes in linear memory for every bit of its
/// Wasm value.
pub proof fn lemma_scalar_size_holds_value(program: ir::Program, rank: spec_fn(int) -> nat, ty: ir::Type)
    requires
        ranked(program, rank),
        is_scalar(ty),
    ensures
        sized(program, rank, ty) > 0,
        wasm_float_bits(wasm_scalar(ty)) matches Some(bits) ==> sized(program, rank, ty) * 8 >= bits,
        wasm_integer_bits(wasm_scalar(ty)) matches Some(bits) ==> sized(program, rank, ty) * 8 >= bits,
{
}

/// The bytes taken by the first `k` fields of the type definition `id`.
pub open spec fn fields_sized(program: ir::Program, rank: spec_fn(int) -> nat, id: int, k: int) -> nat
    decreases rank(id) + 1, 1nat, 0nat, k
    when ranked(program, rank) && 0 <= id < program.type_definitions@.len() && k <= program.type_definitions@[id].fields@.len()
{
    if k <= 0 {
        0
    } else {
        let field = program.type_definitions@[id].fields@[k - 1].ty;
        proof {
            lemma_size_measure(rank, field);
            if let Some(d) = spec_named_dependency(field) {
                assert(dependency_at(program, id, k - 1) == Some(d as int));
                assert(dependency_of(program, id, d as int));
            }
        }
        fields_sized(program, rank, id, k - 1) + sized(program, rank, field)
    }
}

/// Computing the size of `ty` reads only existing definitions and no
/// intermediate result exceeds `usize`.
pub open spec fn size_fits(program: ir::Program, rank: spec_fn(int) -> nat, ty: ir::Type) -> bool
    decreases size_measure(rank, ty), 2nat, type_height(ty), 0nat
    when ranked(program, rank)
{
    &&& sized(program, rank, ty) <= usize::MAX
    &&& match ty {
        ir::Type::Named(id) => id.0 < program.type_definitions@.len() && fields_fit(
            program,
            rank,
            id.0 as int,
            program.type_definitions@[id.0 as int].fields@.len() as int,
        ),
        ir::Type::Array { element, .. } => size_fits(program, rank, *element),
        _ => true,
    }
}

/// The sizes of the first `k` fields of definition `id`, and their running
/// sums, fit in `usize`.
pub open spec fn fields_fit(program: ir::Program, rank: spec_fn(int) -> nat, id: int, k: int) -> bool
    decreases rank(id) + 1, 1nat, 0nat, k
    when ranked(program, rank) && 0 <= id < program.type_definitions@.len() && k <= program.type_definitions@[id].fields@.len()
{
    if k <= 0 {
        true
    } else {
        let field = program.type_definitions@[id].fields@[k - 1].ty;
        proof {
            lemma_size_measure(rank, field);
            if let Some(d) = spec_named_dependency(field) {
                assert(dependency_at(program, id, k - 1) == Some(d as int));
                assert(dependency_of(program, id, d as int));
            }
        }
        &&& fields_fit(program, rank, id, k - 1)
        &&& size_fits(program, rank, field)
        &&& fields_sized(program, rank, id, k) <= usize::MAX
    }
}

proof fn lemma_fields_fit_prefix(program: ir::Program, rank: spec_fn(int) -> nat, id: int, j: int, k: int)
    requires
        ranked(program, rank),
        0 <= id < program.type_definitions@.len(),
        0 < j <= k <= program.type_definitions@[id].fields@.len(),
        fields_fit(program, rank, id, k),
    ensures
        fields_fit(program, rank, id, j),
        size_fits(program, rank, program.type_definitions@[id].fields@[j - 1].ty),
        fields_sized(program, rank, id, j) <= usize::MAX,
    decreases k - j,
{
    if j < k {
        lemma_fields_fit_prefix(program, rank, id, j, k - 1);
    }
}

/// The size of `ty` under the ranking `rank`.
fn size_of(program: &ir::Program, ty: &ir::Type, Ghost(rank): Ghost<spec_fn(int) -> nat>) -> (r: usize)
    requires
        ranked(*program, rank),
        size_fits(*program, rank, *ty),
    ensures
        r == sized(*program, rank, *ty),
    decreases size_measure(rank, *ty), 2nat, type_height(*ty), 0nat,
{
    match ty {
        ir::Type::Named(id) => {
            let fields = &program.type_definitions[id.0].fields;
            let mut total: usize = 0;
            let mut k: usize = 0;
            while k < fields.len()
                invariant
                    ranked(*program, rank),
                    id.0 < program.type_definitions@.len(),
                    fields == &program.type_definitions@[id.0 as int].fields,
                    k <= fields@.len(),
                    total == fields_sized(*program, rank, id.0 as int, k as int),
                    fields_fit(*program, rank, id.0 as int, fields@.len() as int),
                    size_measure(rank, *ty) == rank(id.0 as int) + 1,
                decreases fields@.len() - k,
            {
                proof {
                    lemma_fields_fit_prefix(*program, rank, id.0 as int, k + 1, fields@.len() as int);
                    lemma_size_measure(rank, fields@[k as int].ty);
                    if let Some(d) = spec_named_dependency(fields@[k as int].ty) {
                        assert(dependency_at(*program, id.0 as int, k as int) == Some(d as int));
                        assert(dependency_of(*program, id.0 as int, d as int));
                    }
                }
                let s = size_of(program, &fields[k].ty, Ghost(rank));
                total = total + s;
                k = k + 1;
            }
            total
        },
        ir::Type::Array { element, length } => {
            let s = size_of(program, element, Ghost(rank));
            s * *length
        },
        _ => 8,
    }
}

proof fn lemma_sized_rank_free(program: ir::Program, r1: spec_fn(int) -> nat, r2: spec_fn(int) -> nat, ty: ir::Type)
    requires
        ranked(program, r1),
        ranked(program, r2),
    ensures
        sized(program, r1, ty) == sized(program, r2, ty),
    decreases size_measure(r1, ty), 2nat, type_height(ty), 0nat,
{
    match ty {
        ir::Type::Named(id) => {
            if id.0 < program.type_definitions@.len() {
                lemma_fields_sized_rank_free(
                    program,
                    r1,
                    r2,
                    id.0 as int,
                    program.type_definitions@[id.0 as int].fields@.len() as int,
                );
            }
        },
        ir::Type::Array { element, .. } => lemma_sized_rank_free(program, r1, r2, *element),
        _ => {},
    }
}

proof fn lemma_fields_sized_rank_free(program: ir::Program, r1: spec_fn(int) -> nat, r2: spec_fn(int) -> nat, id: int, k: int)
    requires
        ranked(program, r1),
        ranked(program, r2),
        0 <= id < program.type_definitions@.len(),
        k <= program.type_definitions@[id].fields@.len(),
    ensures
        fields_sized(program, r1, id, k) == fields_sized(program, r2, id, k),
    decreases r1(id) + 1, 1nat, 0nat, k,
{
    if k > 0 {
        let field = program.type_definitions@[id].fields@[k - 1].ty;
        lemma_size_measure(r1, field);
        if let Some(d) = spec_named_dependency(field) {
            assert(dependency_at(program, id, k - 1) == Some(d as int));
            assert(dependency_of(program, id, d as int));
        }
        lemma_fields_sized_rank_free(program, r1, r2, id, k - 1);
        lemma_sized_rank_free(program, r1, r2, field);
    }
}

/// The bytes a value of type `ty` takes in linear memory. The defined
/// types must not contain themselves (some ranking orders them), and no
/// intermediate size may exceed `usize`.
pub fn type_size(program: &ir::Program, ty: &ir::Type) -> (r: usize)
    requires
        exists|rank: spec_fn(int) -> nat| ranked(*program, rank) && size_fits(*program, rank, *ty),
    ensures
        forall|rank: spec_fn(int) -> nat| ranked(*program, rank) ==> r == sized(*program, rank, *ty),
{
    let ghost rank = choose|rank: spec_fn(int) -> nat| ranked(*program, rank) && size_fits(*program, rank, *ty);
    let r = size_of(program, ty, Ghost(rank));
    proof {
        assert forall|other: spec_fn(int) -> nat| ranked(*program, other) implies r == sized(*program, other, *ty) by {
            lemma_sized_rank_free(*program, rank, other, *ty);
        }
    }
    r
}

/// Where field `field_id` of definition `type_id` starts: the bytes of the
/// fields before it.
pub fn field_offset(program: &ir::Program, type_id: usize, field_id: usize) -> (r: usize)
    requires
        type_id < program.type_definitions@.len(),
        field_id <= program.type_definitions@[type_id as int].fields@.len(),
        exists|rank: spec_fn(int) -> nat| ranked(*program, rank) && fields_fit(*program, rank, type_id as int, field_id as int),
    ensures
        forall|rank: spec_fn(int) -> nat| ranked(*program, rank) ==> r == fields_sized(*program, rank, type_id as int, field_id as int),
{
    let ghost rank = choose|rank: spec_fn(int) -> nat| ranked(*program, rank) && fields_fit(*program, rank, type_id as int, field_id as int);
    let fields = &program.type_definitions[type_id].fields;
    let mut total: usize = 0;
    let mut k: usize = 0;
    while k < field_id
        invariant
            ranked(*program, rank),
            type_id < program.type_definitions@.len(),
            fields == &program.type_definitions@[type_id as int].fields,
            field_id <= fields@.len(),
            k <= field_id,
            total == fields_sized(*program, rank, type_id as int, k as int),
            fields_fit(*program, rank, type_id as int, field_id as int),
        decreases field_id - k,
    {
        proof {
            lemma_fields_fit_prefix(*program, rank, type_id as int, k + 1, field_id as int);
        }
        let s = size_of(program, &fields[k].ty, Ghost(rank));
        total = total + s;
        k = k + 1;
    }
    proof {
        assert forall|other: spec_fn(int) -> nat| ranked(*program, other) implies total == fields_sized(
            *program,
            other,
            type_id as int,
            field_id as int,
        ) by {
            lemma_fields_sized_rank_free(*program, rank, other, type_id as int, field_id as int);
        }
    }
    total
}

/// The bytes an array element of shape `element` takes.
pub open spec fn element_sized(program: ir::Program, rank: spec_fn(int) -> nat, element: ArrayElement) -> nat
    decreases element,
{
    match element {
        ArrayElement::Scalar(_) => 8,
        ArrayElement::Named(id) => sized(program, rank, ir::Type::Named(ir::TypeId(id))),
        ArrayElement::Array { element, length } => element_sized(program, rank, *element) * (length as nat),
    }
}

/// Computing the size of an element of shape `element` stays within `usize`.
pub open spec fn element_fits(program: ir::Program, rank: spec_fn(int) -> nat, element: ArrayElement) -> bool
    decreases element,
{
    &&& element_sized(program, rank, element) <= usize::MAX
    &&& match element {
        ArrayElement::Scalar(_) => true,
        ArrayElement::Named(id) => size_fits(program, rank, ir::Type::Named(ir::TypeId(id))),
        ArrayElement::Array { element, .. } => element_fits(program, rank, *element),
    }
}

fn element_size_of(program: &ir::Program, element: &ArrayElement, Ghost(rank): Ghost<spec_fn(int) -> nat>) -> (r: usize)
    requires
        ranked(*program, rank),
        element_fits(*program, rank, *element),
    ensures
        r == element_sized(*program, rank, *element),
    decreases element,
{
    match element {
        ArrayElement::Scalar(_) => 8,
        ArrayElement::Named(id) => size_of(program, &ir::Type::Named(ir::TypeId(*id)), Ghost(rank)),
        ArrayElement::Array { element, length } => {
            let s = element_size_of(program, element, Ghost(rank));
            s * *length
        },
    }
}

proof fn lemma_element_sized_rank_free(program: ir::Program, r1: spec_fn(int) -> nat, r2: spec_fn(int) -> nat, element: ArrayElement)
    requires
        ranked(program, r1),
        ranked(program, r2),
    ensures
        element_sized(program, r1, element) == element_sized(program, r2, element),
    decreases element,
{
    match element {
        ArrayElement::Scalar(_) => {},
        ArrayElement::Named(id) => lemma_sized_rank_free(program, r1, r2, ir::Type::Named(ir::TypeId(id))),
        ArrayElement::Array { element, .. } => lemma_element_sized_rank_free(program, r1, r2, *element),
    }
}

/// The bytes an array element of shape `element` takes.
pub fn array_element_size(program: &ir::Program, element: &ArrayElement) -> (r: usize)
    requires
        exists|rank: spec_fn(int) -> nat| ranked(*program, rank) && element_fits(*program, rank, *element),
    ensures
        forall|rank: spec_fn(int) -> nat| ranked(*program, rank) ==> r == element_sized(*program, rank, *element),
{
    let ghost rank = choose|rank: spec_fn(int) -> nat| ranked(*program, rank) && element_fits(*program, rank, *element);
    let r = element_size_of(program, element, Ghost(rank));
    proof {
        assert forall|other: spec_fn(int) -> nat| ranked(*program, other) implies r == element_sized(*program, other, *element) by {
            lemma_element_sized_rank_free(*program, rank, other, *element);
        }
    }
    r
}

/// An array element takes the bytes of its type.
pub proof fn element_size_matches_type_size(program: ir::Program, rank: spec_fn(int) -> nat, ty: ir::Type)
    requires
        ranked(program, rank),
    ensures
        element_sized(program, rank, element_shape(ty)) == sized(program, rank, ty),
    decreases ty,
{
    match ty {
        ir::Type::Named(id) => {
            assert(ir::TypeId(id.0) == id);
        },
        ir::Type::Array { element, .. } => element_size_matches_type_size(program, rank, *element),
        _ => {},
    }
}

/// A local of a lowered function.
pub struct Local {
    pub name: String,
    pub ty: Type,
}

/// Where a binding lives: in a local, or at an address of linear memory.
pub enum Location {
    Scalar(String),
    Aggregate { type_id: usize, address: usize },
    Array { element: ArrayElement, length: usize, address: usize },
}

/// A location with its local's name as characters.
pub enum Place {
    Scalar(Seq<char>),
    Aggregate { type_id: usize, address: usize },
    Array { element: ArrayElement, length: usize, address: usize },
}

/// A location with its local's name as characters.
pub open spec fn place_of(location: Location) -> Place {
    match location {
        Location::Scalar(name) => Place::Scalar(name@),
        Location::Aggregate { type_id, address } => Place::Aggregate { type_id, address },
        Location::Array { element, length, address } => Place::Array { element, length, address },
    }
}

/// The locals as names and types.
pub open spec fn locals_view(locals: Seq<Local>) -> Seq<(Seq<char>, Type)> {
    locals.map_values(|l: Local| (l.name@, l.ty))
}

/// The binding-to-location entries with binding numbers and places.
pub open spec fn places_view(locations: Seq<(ir::BindingId, Location)>) -> Seq<(usize, Place)> {
    locations.map_values(|e: (ir::BindingId, Location)| (e.0.0, place_of(e.1)))
}

/// The layout state: locals, binding places, name counts, next free address.
pub type LayoutState = (Seq<(Seq<char>, Type)>, Seq<(usize, Place)>, Seq<(Seq<char>, nat)>, nat);

/// The layout state held by the four values.
pub open spec fn layout_state(
    locals: Seq<Local>,
    locations: Seq<(ir::BindingId, Location)>,
    counts: Seq<(String, usize)>,
    next: usize,
) -> LayoutState {
    (locals_view(locals), places_view(locations), counts_view(counts), next as nat)
}

/// `state` after the binding `id`, named `name`, of type `ty` got its place:
/// a value of a defined type or an array takes the next bytes of memory, a
/// scalar a local named as LLVM names its slot.
pub open spec fn located(program: ir::Program, rank: spec_fn(int) -> nat, state: LayoutState, id: usize, name: Seq<char>, ty: ir::Type) -> LayoutState {
    match ty {
        ir::Type::Named(type_id) => (
            state.0,
            state.1.push((id, Place::Aggregate { type_id: type_id.0, address: state.3 as usize })),
            state.2,
            state.3 + sized(program, rank, ty),
        ),
        ir::Type::Array { element, length } => (
            state.0,
            state.1.push((id, Place::Array { element: element_shape(*element), length, address: state.3 as usize })),
            state.2,
            state.3 + sized(program, rank, ty),
        ),
        _ => {
            let lowered = slot_name(count_of(state.2, name), id, name);
            (state.0.push((lowered, wasm_scalar(ty))), state.1.push((id, Place::Scalar(lowered))), counted(state.2, name), state.3)
        },
    }
}

/// `state` after every binding of `statement`, nested ones included, got its place.
pub open spec fn stmt_layout(program: ir::Program, rank: spec_fn(int) -> nat, state: LayoutState, statement: ir::Statement) -> LayoutState
    decreases statement,
{
    match statement.kind {
        ir::StatementKind::Binding { id, name, ty, .. } => located(program, rank, state, id.0, name@, ty),
        ir::StatementKind::If { then_body, else_body, .. } => stmts_layout(
            program,
            rank,
            stmts_layout(program, rank, state, then_body@),
            else_body@,
        ),
        ir::StatementKind::While { body, .. } => stmts_layout(program, rank, state, body@),
        ir::StatementKind::For { initializer, update, body, .. } => stmts_layout(
            program,
            rank,
            stmt_layout(program, rank, stmt_layout(program, rank, state, *initializer), *update),
            body@,
        ),
        _ => state,
    }
}

/// `state` after every binding of each statement got its place, in order.
pub open spec fn stmts_layout(program: ir::Program, rank: spec_fn(int) -> nat, state: LayoutState, statements: Seq<ir::Statement>) -> LayoutState
    decreases statements,
{
    if statements.len() == 0 {
        state
    } else {
        stmt_layout(program, rank, stmts_layout(program, rank, state, statements.drop_last()), statements.last())
    }
}

/// The size of every value binding's type in `statement` can be computed.
pub open spec fn stmt_sizes_fit(program: ir::Program, rank: spec_fn(int) -> nat, statement: ir::Statement) -> bool
    decreases statement,
{
    match statement.kind {
        ir::StatementKind::Binding { ty, .. } => is_scalar(ty) || size_fits(program, rank, ty),
        ir::StatementKind::If { then_body, else_body, .. } => stmts_sizes_fit(program, rank, then_body@) && stmts_sizes_fit(
            program,
            rank,
            else_body@,
        ),
        ir::StatementKind::While { body, .. } => stmts_sizes_fit(program, rank, body@),
        ir::StatementKind::For { initializer, update, body, .. } => stmt_sizes_fit(program, rank, *initializer)
            && stmt_sizes_fit(program, rank, *update) && stmts_sizes_fit(program, rank, body@),
        _ => true,
    }
}

/// The size of every value binding's type in each statement can be computed.
pub open spec fn stmts_sizes_fit(program: ir::Program, rank: spec_fn(int) -> nat, statements: Seq<ir::Statement>) -> bool
    decreases statements,
{
    if statements.len() == 0 {
        true
    } else {
        stmts_sizes_fit(program, rank, statements.drop_last()) && stmt_sizes_fit(program, rank, statements.last())
    }
}

/// The layout only grows: locals, places and the next address.
proof fn lemma_stmt_layout_grows(program: ir::Program, rank: spec_fn(int) -> nat, state: LayoutState, statement: ir::Statement)
    ensures
        stmt_layout(program, rank, state, statement).0.len() >= state.0.len(),
        stmt_layout(program, rank, state, statement).3 >= state.3,
    decreases statement,
{
    match statement.kind {
        ir::StatementKind::If { then_body, else_body, .. } => {
            lemma_stmts_layout_grows(program, rank, state, then_body@);
            lemma_stmts_layout_grows(program, rank, stmts_layout(program, rank, state, then_body@), else_body@);
        },
        ir::StatementKind::While { body, .. } => lemma_stmts_layout_grows(program, rank, state, body@),
        ir::StatementKind::For { initializer, update, body, .. } => {
            lemma_stmt_layout_grows(program, rank, state, *initializer);
            let a = stmt_layout(program, rank, state, *initializer);
            lemma_stmt_layout_grows(program, rank, a, *update);
            lemma_stmts_layout_grows(program, rank, stmt_layout(program, rank, a, *update), body@);
        },
        _ => {},
    }
}

proof fn lemma_stmts_layout_grows(program: ir::Program, rank: spec_fn(int) -> nat, state: LayoutState, statements: Seq<ir::Statement>)
    ensures
        stmts_layout(program, rank, state, statements).0.len() >= state.0.len(),
        stmts_layout(program, rank, state, statements).3 >= state.3,
    decreases statements,
{
    if statements.len() > 0 {
        lemma_stmts_layout_grows(program, rank, state, statements.drop_last());
        lemma_stmt_layout_grows(program, rank, stmts_layout(program, rank, state, statements.drop_last()), statements.last());
    }
}

/// A prefix of the statements leaves a layout that the rest only grows.
proof fn lemma_stmts_layout_prefix(program: ir::Program, rank: spec_fn(int) -> nat, state: LayoutState, statements: Seq<ir::Statement>, j: int)
    requires
        0 <= j <= statements.len(),
    ensures
        stmts_layout(program, rank, state, statements).0.len() >= stmts_layout(program, rank, state, statements.take(j)).0.len(),
        stmts_layout(program, rank, state, statements).3 >= stmts_layout(program, rank, state, statements.take(j)).3,
    decreases statements.len() - j,
{
    if j < statements.len() {
        let shorter = statements.drop_last();
        assert(shorter.take(j) =~= statements.take(j));
        lemma_stmts_layout_prefix(program, rank, state, shorter, j);
        lemma_stmt_layout_grows(program, rank, stmts_layout(program, rank, state, shorter), statements.last());
    } else {
        assert(statements.take(j) =~= statements);
    }
}

/// Gives the binding `id`, named `name`, of type `ty` its place.
fn locate(
    program: &ir::Program,
    id: ir::BindingId,
    name: &String,
    ty: &ir::Type,
    locals: &mut Vec<Local>,
    locations: &mut Vec<(ir::BindingId, Location)>,
    name_counts: &mut Vec<(String, usize)>,
    next_address: &mut usize,
    Ghost(rank): Ghost<spec_fn(int) -> nat>,
)
    requires
        ranked(*program, rank),
        is_scalar(*ty) || size_fits(*program, rank, *ty),
        counts_bounded(counts_view(old(name_counts)@), old(locals)@.len() + 1),
        located(*program, rank, layout_state(old(locals)@, old(locations)@, old(name_counts)@, *old(next_address)), id.0, name@, *ty).3
            <= usize::MAX,
        located(*program, rank, layout_state(old(locals)@, old(locations)@, old(name_counts)@, *old(next_address)), id.0, name@, *ty).0.len()
            < usize::MAX,
    ensures
        layout_state(final(locals)@, final(locations)@, final(name_counts)@, *final(next_address)) == located(
            *program,
            rank,
            layout_state(old(locals)@, old(locations)@, old(name_counts)@, *old(next_address)),
            id.0,
            name@,
            *ty,
        ),
        counts_bounded(counts_view(final(name_counts)@), final(locals)@.len() + 1),
{
    let ghost old_locations = locations@;
    match ty {
        ir::Type::Named(type_id) => {
            let address = *next_address;
            let size = size_of(program, ty, Ghost(rank));
            *next_address = address + size;
            locations.push((id, Location::Aggregate { type_id: type_id.0, address }));
            assert(places_view(locations@) =~= places_view(old_locations).push(
                (id.0, Place::Aggregate { type_id: type_id.0, address }),
            ));
        },
        ir::Type::Array { element, length } => {
            let address = *next_address;
            let size = size_of(program, ty, Ghost(rank));
            *next_address = address + size;
            let shape = array_element_type(element);
            locations.push((id, Location::Array { element: shape, length: *length, address }));
            assert(places_view(locations@) =~= places_view(old_locations).push(
                (id.0, Place::Array { element: element_shape(**element), length: *length, address }),
            ));
        },
        _ => {
            let ghost counts0 = counts_view(name_counts@);
            let position = find_count(name_counts, name.as_str());
            let count = match position {
                Some(i) => name_counts[i].1,
                None => 0,
            };
            proof {
                if let Some(i) = position {
                    assert(counts_view(name_counts@)[i as int].1 == count);
                }
                assert(count == count_of(counts0, name@));
            }
            let lowered = if count == 0 {
                name.clone()
            } else {
                let mut n = name.clone();
                proof {
                    reveal_strlit("_");
                }
                n.append("_");
                let digits = decimal_text(id.0 as u64);
                n.append(digits.as_str());
                n
            };
            let ghost old_locals = locals@;
            locals.push(Local { name: lowered.clone(), ty: scalar_type(ty) });
            locations.push((id, Location::Scalar(lowered)));
            assert(locals_view(locals@) =~= locals_view(old_locals).push((slot_name(count as nat, id.0, name@), wasm_scalar(*ty))));
            assert(places_view(locations@) =~= places_view(old_locations).push(
                (id.0, Place::Scalar(slot_name(count as nat, id.0, name@))),
            ));
            let ghost old_counts = name_counts@;
            match position {
                Some(i) => {
                    assert(count <= old_locals.len() + 1);
                    let updated = count + 1;
                    name_counts.set(i, (name.clone(), updated));
                    assert(counts_view(name_counts@) =~= counts_view(old_counts).update(i as int, (name@, count as nat + 1)));
                },
                None => {
                    name_counts.push((name.clone(), 1));
                    assert(counts_view(name_counts@) =~= counts_view(old_counts).push((name@, 1nat)));
                },
            }
            proof {
                let v = counts_view(name_counts@);
                assert forall|k: int| 0 <= k < v.len() implies (#[trigger] v[k]).1 <= locals@.len() + 1 by {
                    if k < old_counts.len() {
                        assert(counts_view(old_counts)[k].1 <= old_locals.len() + 1);
                    }
                }
            }
        },
    }
}

/// Gives every binding of `statement`, nested ones included, its place.
#[verifier::loop_isolation(false)]
fn statement_layout(
    program: &ir::Program,
    statement: &ir::Statement,
    locals: &mut Vec<Local>,
    locations: &mut Vec<(ir::BindingId, Location)>,
    name_counts: &mut Vec<(String, usize)>,
    next_address: &mut usize,
    Ghost(rank): Ghost<spec_fn(int) -> nat>,
)
    requires
        ranked(*program, rank),
        stmt_sizes_fit(*program, rank, *statement),
        counts_bounded(counts_view(old(name_counts)@), old(locals)@.len() + 1),
        stmt_layout(*program, rank, layout_state(old(locals)@, old(locations)@, old(name_counts)@, *old(next_address)), *statement).3
            <= usize::MAX,
        stmt_layout(*program, rank, layout_state(old(locals)@, old(locations)@, old(name_counts)@, *old(next_address)), *statement).0.len()
            < usize::MAX,
    ensures
        layout_state(final(locals)@, final(locations)@, final(name_counts)@, *final(next_address)) == stmt_layout(
            *program,
            rank,
            layout_state(old(locals)@, old(locations)@, old(name_counts)@, *old(next_address)),
            *statement,
        ),
        counts_bounded(counts_view(final(name_counts)@), final(locals)@.len() + 1),
    decreases statement,
{
    let ghost start = layout_state(locals@, locations@, name_counts@, *next_address);
    match &statement.kind {
        ir::StatementKind::Binding { id, name, ty, .. } => {
            locate(program, *id, name, ty, locals, locations, name_counts, next_address, Ghost(rank));
        },
        ir::StatementKind::If { then_body, else_body, .. } => {
            proof {
                lemma_stmts_layout_grows(*program, rank, stmts_layout(*program, rank, start, then_body@), else_body@);
            }
            statements_layout(program, then_body, locals, locations, name_counts, next_address, Ghost(rank));
            statements_layout(program, else_body, locals, locations, name_counts, next_address, Ghost(rank));
        },
        ir::StatementKind::While { body, .. } => {
            statements_layout(program, body, locals, locations, name_counts, next_address, Ghost(rank));
        },
        ir::StatementKind::For { initializer, update, body, .. } => {
            proof {
                let a = stmt_layout(*program, rank, start, **initializer);
                let b = stmt_layout(*program, rank, a, **update);
                lemma_stmts_layout_grows(*program, rank, b, body@);
                lemma_stmt_layout_grows(*program, rank, a, **update);
            }
            statement_layout(program, initializer, locals, locations, name_counts, next_address, Ghost(rank));
            statement_layout(program, update, locals, locations, name_counts, next_address, Ghost(rank));
            statements_layout(program, body, locals, locations, name_counts, next_address, Ghost(rank));
        },
        _ => {},
    }
}

/// Gives every binding of each statement, in order, its place.
fn statements_layout(
    program: &ir::Program,
    statements: &Vec<ir::Statement>,
    locals: &mut Vec<Local>,
    locations: &mut Vec<(ir::BindingId, Location)>,
    name_counts: &mut Vec<(String, usize)>,
    next_address: &mut usize,
    Ghost(rank): Ghost<spec_fn(int) -> nat>,
)
    requires
        ranked(*program, rank),
        stmts_sizes_fit(*program, rank, statements@),
        counts_bounded(counts_view(old(name_counts)@), old(locals)@.len() + 1),
        stmts_layout(*program, rank, layout_state(old(locals)@, old(locations)@, old(name_counts)@, *old(next_address)), statements@).3
            <= usize::MAX,
        stmts_layout(*program, rank, layout_state(old(locals)@, old(locations)@, old(name_counts)@, *old(next_address)), statements@).0.len()
            < usize::MAX,
    ensures
        layout_state(final(locals)@, final(locations)@, final(name_counts)@, *final(next_address)) == stmts_layout(
            *program,
            rank,
            layout_state(old(locals)@, old(locations)@, old(name_counts)@, *old(next_address)),
            statements@,
        ),
        counts_bounded(counts_view(final(name_counts)@), final(locals)@.len() + 1),
    decreases statements,
{
    let ghost start = layout_state(locals@, locations@, name_counts@, *next_address);
    let ghost whole = stmts_layout(*program, rank, start, statements@);
    let mut i: usize = 0;
    while i < statements.len()
        invariant
            ranked(*program, rank),
            i <= statements@.len(),
            stmts_sizes_fit(*program, rank, statements@),
            layout_state(locals@, locations@, name_counts@, *next_address) == stmts_layout(*program, rank, start, statements@.take(i as int)),
            counts_bounded(counts_view(name_counts@), locals@.len() + 1),
            whole == stmts_layout(*program, rank, start, statements@),
            whole.3 <= usize::MAX,
            whole.0.len() < usize::MAX,
        decreases statements@.len() - i,
    {
        assert(statements@.take(i + 1).drop_last() =~= statements@.take(i as int));
        proof {
            lemma_stmts_layout_prefix(*program, rank, start, statements@, i + 1);
            lemma_sizes_fit_at(*program, rank, statements@, i as int);
        }
        statement_layout(program, &statements[i], locals, locations, name_counts, next_address, Ghost(rank));
        i = i + 1;
    }
    assert(statements@.take(statements@.len() as int) =~= statements@);
}

/// Every statement of a list whose sizes fit has sizes that fit.
proof fn lemma_sizes_fit_at(program: ir::Program, rank: spec_fn(int) -> nat, statements: Seq<ir::Statement>, i: int)
    requires
        stmts_sizes_fit(program, rank, statements),
        0 <= i < statements.len(),
    ensures
        stmt_sizes_fit(program, rank, statements[i]),
    decreases statements.len(),
{
    if i < statements.len() - 1 {
        lemma_sizes_fit_at(program, rank, statements.drop_last(), i);
    }
}

proof fn lemma_stmt_layout_rank_free(
    program: ir::Program,
    r1: spec_fn(int) -> nat,
    r2: spec_fn(int) -> nat,
    state: LayoutState,
    statement: ir::Statement,
)
    requires
        ranked(program, r1),
        ranked(program, r2),
    ensures
        stmt_layout(program, r1, state, statement) == stmt_layout(program, r2, state, statement),
    decreases statement,
{
    match statement.kind {
        ir::StatementKind::Binding { ty, .. } => lemma_sized_rank_free(program, r1, r2, ty),
        ir::StatementKind::If { then_body, else_body, .. } => {
            lemma_stmts_layout_rank_free(program, r1, r2, state, then_body@);
            lemma_stmts_layout_rank_free(program, r1, r2, stmts_layout(program, r1, state, then_body@), else_body@);
        },
        ir::StatementKind::While { body, .. } => lemma_stmts_layout_rank_free(program, r1, r2, state, body@),
        ir::StatementKind::For { initializer, update, body, .. } => {
            lemma_stmt_layout_rank_free(program, r1, r2, state, *initializer);
            let a = stmt_layout(program, r1, state, *initializer);
            lemma_stmt_layout_rank_free(program, r1, r2, a, *update);
            lemma_stmts_layout_rank_free(program, r1, r2, stmt_layout(program, r1, a, *update), body@);
        },
        _ => {},
    }
}

proof fn lemma_stmts_layout_rank_free(
    program: ir::Program,
    r1: spec_fn(int) -> nat,
    r2: spec_fn(int) -> nat,
    state: LayoutState,
    statements: Seq<ir::Statement>,
)
    requires
        ranked(program, r1),
        ranked(program, r2),
    ensures
        stmts_layout(program, r1, state, statements) == stmts_layout(program, r2, state, statements),
    decreases statements,
{
    if statements.len() > 0 {
        lemma_stmts_layout_rank_free(program, r1, r2, state, statements.drop_last());
        lemma_stmt_layout_rank_free(program, r1, r2, stmts_layout(program, r1, state, statements.drop_last()), statements.last());
    }
}

/// Gives every local binding of `statements`, nested ones included and in
/// order, its place: a value of a defined type or an array takes the next
/// `type_size` bytes from `next_address` on; a scalar gets a local, named
/// after the binding the first time its name is met (counted in
/// `name_counts`) and otherwise after the name and the binding's number.
/// The defined types must not contain themselves, and the addresses, the
/// sizes and the number of locals must stay within `usize`.
pub fn collect_locations(
    statements: &Vec<ir::Statement>,
    program: &ir::Program,
    locals: &mut Vec<Local>,
    locations: &mut Vec<(ir::BindingId, Location)>,
    name_counts: &mut Vec<(String, usize)>,
    next_address: &mut usize,
)
    requires
        counts_bounded(counts_view(old(name_counts)@), old(locals)@.len() + 1),
        exists|rank: spec_fn(int) -> nat|
            {
                &&& ranked(*program, rank)
                &&& stmts_sizes_fit(*program, rank, statements@)
                &&& #[trigger] stmts_layout(
                    *program,
                    rank,
                    layout_state(old(locals)@, old(locations)@, old(name_counts)@, *old(next_address)),
                    statements@,
                ).3 <= usize::MAX
                &&& stmts_layout(
                    *program,
                    rank,
                    layout_state(old(locals)@, old(locations)@, old(name_counts)@, *old(next_address)),
                    statements@,
                ).0.len() < usize::MAX
            },
    ensures
        forall|rank: spec_fn(int) -> nat|
            ranked(*program, rank) ==> layout_state(final(locals)@, final(locations)@, final(name_counts)@, *final(next_address))
                == #[trigger] stmts_layout(
                *program,
                rank,
                layout_state(old(locals)@, old(locations)@, old(name_counts)@, *old(next_address)),
                statements@,
            ),
        counts_bounded(counts_view(final(name_counts)@), final(locals)@.len() + 1),
{
    let ghost start = layout_state(locals@, locations@, name_counts@, *next_address);
    let ghost rank = choose|rank: spec_fn(int) -> nat|
        {
            &&& ranked(*program, rank)
            &&& stmts_sizes_fit(*program, rank, statements@)
            &&& #[trigger] stmts_layout(*program, rank, start, statements@).3 <= usize::MAX
            &&& stmts_layout(*program, rank, start, statements@).0.len() < usize::MAX
        };
    statements_layout(program, statements, locals, locations, name_counts, next_address, Ghost(rank));
    proof {
        assert forall|other: spec_fn(int) -> nat| ranked(*program, other) implies layout_state(
            locals@,
            locations@,
            name_counts@,
            *next_address,
        ) == #[trigger] stmts_layout(*program, other, start, statements@) by {
            lemma_stmts_layout_rank_free(*program, rank, other, start, statements@);
        }
    }
}

} // verus!
