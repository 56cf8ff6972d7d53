//! The parts of lowering a checked program to LLVM that map types and
//! operators: every integer is held as `i64`, arithmetic on `i64` is
//! checked, and comparisons have operations of their own.
use crate::ast;
use crate::ir;
use crate::text::{decimal, decimal_text, same_text};
use vstd::prelude::*;

verus! {

/// An LLVM-level type.
#[derive(Debug, PartialEq, Eq)]
pub enum Type {
    String,
    Bool,
    I64,
    Float,
    Double,
    Named(usize),
    Array { element: Box<Type>, length: usize },
}

/// The LLVM type that stands for a checked type.
pub open spec fn llvm_type(ty: ir::Type) -> Type
    decreases ty,
{
    match ty {
        ir::Type::String => Type::String,
        ir::Type::Bool => Type::Bool,
        ir::Type::Integer(_) => Type::I64,
        ir::Type::F32 => Type::Float,
        ir::Type::F64 => Type::Double,
        ir::Type::Named(id) => Type::Named(id.0),
        ir::Type::Array { element, length } => Type::Array { element: Box::new(llvm_type(*element)), length },
    }
}

/// Lowers a checked type to its LLVM type.
pub fn lower_type(ty: &ir::Type) -> (r: Type)
    ensures
        r == llvm_type(*ty),
    decreases ty,
{
    match ty {
        ir::Type::String => Type::String,
        ir::Type::Bool => Type::Bool,
        ir::Type::Integer(_) => Type::I64,
        ir::Type::F32 => Type::Float,
        ir::Type::F64 => Type::Double,
        ir::Type::Named(id) => Type::Named(id.0),
        ir::Type::Array { element, length } => Type::Array { element: Box::new(lower_type(element)), length: *length },
    }
}

impl From<ir::Type> for Type {
    /// The LLVM type that stands for a checked type.
    fn from(value: ir::Type) -> (r: Self) {
        lower_type(&value)
    }
}

impl vstd::std_specs::convert::FromSpecImpl<ir::Type> for Type {
    open spec fn obeys_from_spec() -> bool {
        true
    }

    open spec fn from_spec(v: ir::Type) -> Self {
        llvm_type(v)
    }
}

/// An LLVM arithmetic operation.
#[derive(Debug, Clone, Copy, PartialEq, Eq, Structural)]
pub enum BinaryOp {
    CheckedI64Add,
    CheckedI64Sub,
    CheckedI64Mul,
    CheckedI64Div,
    FAdd,
    FSub,
    FMul,
    FDiv,
}

/// Whether `op` is one of the four arithmetic operators.
pub open spec fn arithmetic(op: ast::BinaryOp) -> bool {
    ||| op == ast::BinaryOp::Add
    ||| op == ast::BinaryOp::Subtract
    ||| op == ast::BinaryOp::Multiply
    ||| op == ast::BinaryOp::Divide
}

/// The LLVM operation for arithmetic on values of type `ty`: checked on
/// `i64`, floating on `float` and `double`.
pub open spec fn llvm_binary_op(op: ast::BinaryOp, ty: Type) -> BinaryOp {
    if ty is I64 {
        match op {
            ast::BinaryOp::Add => BinaryOp::CheckedI64Add,
            ast::BinaryOp::Subtract => BinaryOp::CheckedI64Sub,
            ast::BinaryOp::Multiply => BinaryOp::CheckedI64Mul,
            _ => BinaryOp::CheckedI64Div,
        }
    } else {
        match op {
            ast::BinaryOp::Add => BinaryOp::FAdd,
            ast::BinaryOp::Subtract => BinaryOp::FSub,
            ast::BinaryOp::Multiply => BinaryOp::FMul,
            _ => BinaryOp::FDiv,
        }
    }
}

/// The LLVM operation for arithmetic on values of type `ty`. Other
/// operators, and arithmetic on other types, are lowered elsewhere.
pub fn binary_op(op: ast::BinaryOp, ty: &Type) -> (r: BinaryOp)
    requires
        arithmetic(op),
        *ty is I64 || *ty is Float || *ty is Double,
    ensures
        r == llvm_binary_op(op, *ty),
{
    match ty {
        Type::I64 => match op {
            ast::BinaryOp::Add => BinaryOp::CheckedI64Add,
            ast::BinaryOp::Subtract => BinaryOp::CheckedI64Sub,
            ast::BinaryOp::Multiply => BinaryOp::CheckedI64Mul,
            _ => BinaryOp::CheckedI64Div,
        },
        _ => match op {
            ast::BinaryOp::Add => BinaryOp::FAdd,
            ast::BinaryOp::Subtract => BinaryOp::FSub,
            ast::BinaryOp::Multiply => BinaryOp::FMul,
            _ => BinaryOp::FDiv,
        },
    }
}

/// An LLVM comparison.
#[derive(Debug, Clone, Copy, PartialEq, Eq, Structural)]
pub enum CompareOp {
    Equal,
    NotEqual,
    Less,
    LessEqual,
    Greater,
    GreaterEqual,
}

/// The comparison a binary operator stands for, if it is one.
pub open spec fn spec_compare_op(op: ast::BinaryOp) -> Option<CompareOp> {
    match op {
        ast::BinaryOp::Equal => Some(CompareOp::Equal),
        ast::BinaryOp::NotEqual => Some(CompareOp::NotEqual),
        ast::BinaryOp::Less => Some(CompareOp::Less),
        ast::BinaryOp::LessEqual => Some(CompareOp::LessEqual),
        ast::BinaryOp::Greater => Some(CompareOp::Greater),
        ast::BinaryOp::GreaterEqual => Some(CompareOp::GreaterEqual),
        _ => None,
    }
}

/// The comparison a binary operator stands for, if it is one.
pub fn compare_op(op: ast::BinaryOp) -> (r: Option<CompareOp>)
    ensures
        r == spec_compare_op(op),
{
    match op {
        ast::BinaryOp::Equal => Some(CompareOp::Equal),
        ast::BinaryOp::NotEqual => Some(CompareOp::NotEqual),
        ast::BinaryOp::Less => Some(CompareOp::Less),
        ast::BinaryOp::LessEqual => Some(CompareOp::LessEqual),
        ast::BinaryOp::Greater => Some(CompareOp::Greater),
        ast::BinaryOp::GreaterEqual => Some(CompareOp::GreaterEqual),
        _ => None,
    }
}

/// Whether the LLVM comparison `c` holds between `a` and `b`.
pub open spec fn compare_holds(c: CompareOp, a: int, b: int) -> bool {
    match c {
        CompareOp::Equal => a == b,
        CompareOp::NotEqual => a != b,
        CompareOp::Less => a < b,
        CompareOp::LessEqual => a <= b,
        CompareOp::Greater => a > b,
        CompareOp::GreaterEqual => a >= b,
    }
}

/// Exactly the comparison operators have an LLVM comparison, and it holds
/// between two values exactly when the source comparison does.
pub proof fn lemma_compare_op_relation(op: ast::BinaryOp, a: int, b: int)
    ensures
        spec_compare_op(op) is Some <==> ast::is_comparison(op),
        spec_compare_op(op) matches Some(c) ==> (compare_holds(c, a, b) <==> ast::binary_value(op, a, b) == Some(1int)),
        spec_compare_op(op) matches Some(c) ==> (!compare_holds(c, a, b) <==> ast::binary_value(op, a, b) == Some(0int)),
{
}

/// The value of the LLVM operation `op` on `a` and `b`: the checked `i64`
/// operations and the floating operations compute the same arithmetic
/// function as the operator they are named after.
pub open spec fn llvm_value(op: BinaryOp, a: int, b: int) -> Option<int> {
    match op {
        BinaryOp::CheckedI64Add | BinaryOp::FAdd => Some(a + b),
        BinaryOp::CheckedI64Sub | BinaryOp::FSub => Some(a - b),
        BinaryOp::CheckedI64Mul | BinaryOp::FMul => Some(a * b),
        BinaryOp::CheckedI64Div | BinaryOp::FDiv => if b == 0 { None } else { Some(a / b) },
    }
}

/// Whether `op` is one of the overflow-checked `i64` operations.
pub open spec fn llvm_checked(op: BinaryOp) -> bool {
    ||| op == BinaryOp::CheckedI64Add
    ||| op == BinaryOp::CheckedI64Sub
    ||| op == BinaryOp::CheckedI64Mul
    ||| op == BinaryOp::CheckedI64Div
}

/// An arithmetic operator lowers to an LLVM operation that computes the
/// same function of its operands, checked exactly on `i64`.
pub proof fn lemma_binary_op_computes_operator(op: ast::BinaryOp, ty: Type, a: int, b: int)
    requires
        arithmetic(op),
        ty is I64 || ty is Float || ty is Double,
    ensures
        llvm_value(llvm_binary_op(op, ty), a, b) == ast::binary_value(op, a, b),
        llvm_checked(llvm_binary_op(op, ty)) <==> ty is I64,
{
}

/// The number of bits of a floating LLVM type.
pub open spec fn llvm_float_bits(t: Type) -> Option<nat> {
    match t {
        Type::Float => Some(32),
        Type::Double => Some(64),
        _ => None,
    }
}

/// A checked type and its LLVM type hold the same kind of value: floats of
/// the same width, every integer in an `i64`, strings and booleans as
/// such, a defined type by its id, and an array of the same length whose
/// elements are held in the same way.
pub proof fn lemma_llvm_type_keeps_values(ty: ir::Type)
    ensures
        llvm_float_bits(llvm_type(ty)) == ir::float_bits(ty),
        ty is Integer <==> llvm_type(ty) is I64,
        ty is Bool <==> llvm_type(ty) is Bool,
        ty is String <==> llvm_type(ty) is String,
        ty matches ir::Type::Named(id) ==> llvm_type(ty) == Type::Named(id.0),
        ty is Named <==> llvm_type(ty) is Named,
        ty matches ir::Type::Array { element, length } ==> (llvm_type(ty) matches Type::Array { element: e, length: l }
            && l == length && *e == llvm_type(*element)),
        ty is Array <==> llvm_type(ty) is Array,
{
}

/// A stack slot of a lowered function.
pub struct Slot {
    pub name: String,
    pub ty: Type,
}

/// The position of a slot in its function's slot list.
#[derive(Debug, Clone, Copy, PartialEq, Eq, Structural)]
pub struct SlotId(pub usize);

/// The slots as names and types.
pub open spec fn slots_view(slots: Seq<Slot>) -> Seq<(Seq<char>, Type)> {
    slots.map_values(|s: Slot| (s.name@, s.ty))
}

/// The binding-to-slot entries as numbers.
pub open spec fn slot_map_view(map: Seq<(ir::BindingId, SlotId)>) -> Seq<(usize, usize)> {
    map.map_values(|e: (ir::BindingId, SlotId)| (e.0.0, e.1.0))
}

/// The name counts as names and numbers.
pub open spec fn counts_view(counts: Seq<(String, usize)>) -> Seq<(Seq<char>, nat)> {
    counts.map_values(|e: (String, usize)| (e.0@, e.1 as nat))
}

/// The position of the first count kept for `name`, if any.
pub open spec fn count_position(counts: Seq<(Seq<char>, nat)>, name: Seq<char>) -> Option<int>
    decreases counts.len(),
{
    if counts.len() == 0 {
        None
    } else {
        match count_position(counts.drop_last(), name) {
            Some(i) => Some(i),
            None => if counts.last().0 == name { Some(counts.len() - 1) } else { None },
        }
    }
}

/// How many slots were named after `name` so far.
pub open spec fn count_of(counts: Seq<(Seq<char>, nat)>, name: Seq<char>) -> nat {
    match count_position(counts, name) {
        Some(i) => counts[i].1,
        None => 0,
    }
}

/// `counts` after one more slot named after `name`.
pub open spec fn counted(counts: Seq<(Seq<char>, nat)>, name: Seq<char>) -> Seq<(Seq<char>, nat)> {
    match count_position(counts, name) {
        Some(i) => counts.update(i, (name, counts[i].1 + 1)),
        None => counts.push((name, 1)),
    }
}

/// The slot state: slot names and types, binding-to-slot entries, name counts.
pub type SlotState = (Seq<(Seq<char>, Type)>, Seq<(usize, usize)>, Seq<(Seq<char>, nat)>);

/// The name a binding's slot takes: its own name the first time the name is
/// met, later the name followed by `_` and the binding's number.
pub open spec fn slot_name(count: nat, id: usize, name: Seq<char>) -> Seq<char> {
    if count == 0 {
        name
    } else {
        name + "_"@ + decimal(id as nat)
    }
}

/// `state` after a slot for the binding `id`, named `name`, of type `ty`.
pub open spec fn bound(state: SlotState, id: usize, name: Seq<char>, ty: ir::Type) -> SlotState {
    (
        state.0.push((slot_name(count_of(state.2, name), id, name), llvm_type(ty))),
        state.1.push((id, state.0.len() as usize)),
        counted(state.2, name),
    )
}

/// `state` after the slots of the bindings in `statement`, nested ones included.
pub open spec fn stmt_slots(state: SlotState, statement: ir::Statement) -> SlotState
    decreases statement,
{
    match statement.kind {
        ir::StatementKind::Binding { id, name, ty, .. } => bound(state, id.0, name@, ty),
        ir::StatementKind::If { then_body, else_body, .. } => stmts_slots(stmts_slots(state, then_body@), else_body@),
        ir::StatementKind::While { body, .. } => stmts_slots(state, body@),
        ir::StatementKind::For { initializer, update, body, .. } => stmts_slots(
            stmt_slots(stmt_slots(state, *initializer), *update),
            body@,
        ),
        _ => state,
    }
}

/// `state` after the slots of the bindings in each statement, in order.
pub open spec fn stmts_slots(state: SlotState, statements: Seq<ir::Statement>) -> SlotState
    decreases statements,
{
    if statements.len() == 0 {
        state
    } else {
        stmt_slots(stmts_slots(state, statements.drop_last()), statements.last())
    }
}

/// No name count exceeds the number of slots.
pub open spec fn counts_bounded(counts: Seq<(Seq<char>, nat)>, slots: nat) -> bool {
    forall|i: int| 0 <= i < counts.len() ==> (#[trigger] counts[i]).1 <= slots
}

/// Finds the count kept for `name`.
pub(crate) fn find_count(counts: &Vec<(String, usize)>, name: &str) -> (r: Option<usize>)
    ensures
        r matches Some(i) ==> count_position(counts_view(counts@), name@) == Some(i as int) && i < counts@.len()
            && counts@[i as int].0@ == name@,
        r is None ==> count_position(counts_view(counts@), name@) is None,
{
    let ghost view = counts_view(counts@);
    let mut i: usize = 0;
    while i < counts.len()
        invariant
            i <= counts@.len(),
            view == counts_view(counts@),
            count_position(view.take(i as int), name@) is None,
        decreases counts@.len() - i,
    {
        assert(view.take(i + 1).drop_last() =~= view.take(i as int));
        if same_text(counts[i].0.as_str(), name) {
            proof {
                lemma_position_prefix(view, name@, i as int);
            }
            return Some(i);
        }
        i = i + 1;
    }
    assert(view.take(counts@.len() as int) =~= view);
    None
}

/// A name first found at `i` of a prefix is first found at `i` of the whole.
proof fn lemma_position_prefix(view: Seq<(Seq<char>, nat)>, name: Seq<char>, i: int)
    requires
        0 <= i < view.len(),
        count_position(view.take(i), name) is None,
        view[i].0 == name,
    ensures
        count_position(view, name) == Some(i),
    decreases view.len(),
{
    assert(view.take(i + 1).drop_last() =~= view.take(i));
    if i + 1 < view.len() {
        assert(view.drop_last().take(i) =~= view.take(i));
        lemma_position_prefix(view.drop_last(), name, i);
    } else {
        assert(view.drop_last() =~= view.take(i));
    }
}

/// The slot state held by the three lists.
pub open spec fn slot_state(slots: Seq<Slot>, map: Seq<(ir::BindingId, SlotId)>, counts: Seq<(String, usize)>) -> SlotState {
    (slots_view(slots), slot_map_view(map), counts_view(counts))
}

/// Gives the binding `id`, named `name`, of type `ty` the next slot.
fn bind_slot(
    id: ir::BindingId,
    name: &String,
    ty: &ir::Type,
    slots: &mut Vec<Slot>,
    slot_map: &mut Vec<(ir::BindingId, SlotId)>,
    name_counts: &mut Vec<(String, usize)>,
)
    requires
        counts_bounded(counts_view(old(name_counts)@), old(slots)@.len()),
    ensures
        slot_state(final(slots)@, final(slot_map)@, final(name_counts)@) == bound(
            slot_state(old(slots)@, old(slot_map)@, old(name_counts)@),
            id.0,
            name@,
            *ty,
        ),
        counts_bounded(counts_view(final(name_counts)@), final(slots)@.len()),
{
    let ghost before = slot_state(slots@, slot_map@, name_counts@);
    let position = find_count(name_counts, name.as_str());
    let count = match position {
        Some(i) => name_counts[i].1,
        None => 0,
    };
    proof {
        if let Some(i) = position {
            assert(counts_view(name_counts@)[i as int].1 == count);
        }
        assert(count == count_of(before.2, name@));
    }
    let lowered = if count == 0 {
        name.clone()
    } else {
        let mut n = name.clone();
        proof {
            reveal_strlit("_");
        }
        n.append("_");
        let digits = decimal_text(id.0 as u64);
        n.append(digits.as_str());
        n
    };
    let slot = SlotId(slots.len());
    let ghost old_slots = slots@;
    let ghost old_map = slot_map@;
    slots.push(Slot { name: lowered, ty: lower_type(ty) });
    slot_map.push((id, slot));
    let total = slots.len();
    assert(slots_view(slots@) =~= slots_view(old_slots).push((slot_name(count as nat, id.0, name@), llvm_type(*ty))));
    assert(slot_map_view(slot_map@) =~= slot_map_view(old_map).push((id.0, old_slots.len() as usize)));
    let ghost old_counts = name_counts@;
    match position {
        Some(i) => {
            assert(count <= old_slots.len());
            let updated = count + 1;
            name_counts.set(i, (name.clone(), updated));
            assert(counts_view(name_counts@) =~= counts_view(old_counts).update(i as int, (name@, count as nat + 1)));
        },
        None => {
            name_counts.push((name.clone(), 1));
            assert(counts_view(name_counts@) =~= counts_view(old_counts).push((name@, 1nat)));
        },
    }
    assert(total == slots@.len());
    proof {
        let v = counts_view(name_counts@);
        assert forall|k: int| 0 <= k < v.len() implies (#[trigger] v[k]).1 <= slots@.len() by {
            if k < old_counts.len() {
                assert(counts_view(old_counts)[k].1 <= old_slots.len());
            }
        }
    }
}

/// Gives every binding of `statement`, nested ones included, a slot.
#[verifier::loop_isolation(false)]
fn statement_slots(
    statement: &ir::Statement,
    slots: &mut Vec<Slot>,
    slot_map: &mut Vec<(ir::BindingId, SlotId)>,
    name_counts: &mut Vec<(String, usize)>,
)
    requires
        counts_bounded(counts_view(old(name_counts)@), old(slots)@.len()),
    ensures
        slot_state(final(slots)@, final(slot_map)@, final(name_counts)@) == stmt_slots(
            slot_state(old(slots)@, old(slot_map)@, old(name_counts)@),
            *statement,
        ),
        counts_bounded(counts_view(final(name_counts)@), final(slots)@.len()),
    decreases statement,
{
    match &statement.kind {
        ir::StatementKind::Binding { id, name, ty, .. } => bind_slot(*id, name, ty, slots, slot_map, name_counts),
        ir::StatementKind::If { then_body, else_body, .. } => {
            collect_slots(then_body, slots, slot_map, name_counts);
            collect_slots(else_body, slots, slot_map, name_counts);
        },
        ir::StatementKind::While { body, .. } => collect_slots(body, slots, slot_map, name_counts),
        ir::StatementKind::For { initializer, update, body, .. } => {
            statement_slots(initializer, slots, slot_map, name_counts);
            statement_slots(update, slots, slot_map, name_counts);
            collect_slots(body, slots, slot_map, name_counts);
        },
        _ => {},
    }
}

/// Gives every binding of `statements`, nested ones included and in order,
/// a slot of its own: the slot takes the binding's name the first time the
/// name is met (counted in `name_counts`), later the name followed by `_`
/// and the binding's number; `slot_map` records each binding's slot.
pub fn collect_slots(
    statements: &Vec<ir::Statement>,
    slots: &mut Vec<Slot>,
    slot_map: &mut Vec<(ir::BindingId, SlotId)>,
    name_counts: &mut Vec<(String, usize)>,
)
    requires
        counts_bounded(counts_view(old(name_counts)@), old(slots)@.len()),
    ensures
        slot_state(final(slots)@, final(slot_map)@, final(name_counts)@) == stmts_slots(
            slot_state(old(slots)@, old(slot_map)@, old(name_counts)@),
            statements@,
        ),
        counts_bounded(counts_view(final(name_counts)@), final(slots)@.len()),
    decreases statements,
{
    let ghost start = slot_state(slots@, slot_map@, name_counts@);
    let mut i: usize = 0;
    while i < statements.len()
        invariant
            i <= statements@.len(),
            slot_state(slots@, slot_map@, name_counts@) == stmts_slots(start, statements@.take(i as int)),
            counts_bounded(counts_view(name_counts@), slots@.len()),
        decreases statements@.len() - i,
    {
        assert(statements@.take(i + 1).drop_last() =~= statements@.take(i as int));
        statement_slots(&statements[i], slots, slot_map, name_counts);
        i = i + 1;
    }
    assert(statements@.take(statements@.len() as int) =~= statements@);
}

} // verus!
