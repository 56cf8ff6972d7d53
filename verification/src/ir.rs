//! The checked program as the code generators read it: every type resolved
//! to a numbered definition or a fixed-length array, every name bound to a
//! numbered binding. Only what the lowering passes read is held here.
use crate::ast::{BinaryOp, LogicalOp, UnaryOp};
use crate::source::Span;
use crate::types::{IntegerType, NumericType};
use vstd::prelude::*;

verus! {

/// Index of a type definition in `Program::type_definitions`.
#[derive(Debug, Clone, Copy, PartialEq, Eq, Structural)]
pub struct TypeId(pub usize);

/// Number of a resolved local binding.
#[derive(Debug, Clone, Copy, PartialEq, Eq, Structural)]
pub struct BindingId(pub usize);

/// Index of a function definition in `Program::function_definitions`.
#[derive(Debug, Clone, Copy, PartialEq, Eq, Structural)]
pub struct FunctionId(pub usize);

/// A resolved type.
#[derive(Debug, PartialEq, Eq)]
pub enum Type {
    String,
    Bool,
    Integer(IntegerType),
    F32,
    F64,
    Named(TypeId),
    Array { element: Box<Type>, length: usize },
}

/// The number of bits of a floating-point checked type: `f32` has 32 and
/// `f64` has 64; other types are not floating.
pub open spec fn float_bits(ty: Type) -> Option<nat> {
    match ty {
        Type::F32 => Some(32),
        Type::F64 => Some(64),
        _ => None,
    }
}

/// A field of a resolved type definition.
pub struct FieldDefinition {
    pub name: String,
    pub ty: Type,
}

/// A resolved struct or enum storage definition.
pub struct TypeDefinition {
    pub name: String,
    pub fields: Vec<FieldDefinition>,
}

/// A resolved function.
pub struct FunctionDefinition {
    pub name: String,
    pub body: Vec<Statement>,
}

/// A checked program.
pub struct Program {
    pub type_definitions: Vec<TypeDefinition>,
    pub function_definitions: Vec<FunctionDefinition>,
    pub statements: Vec<Statement>,
}

/// A checked statement.
pub struct Statement {
    pub kind: StatementKind,
}

/// The forms of a checked statement.
pub enum StatementKind {
    Binding { id: BindingId, name: String, ty: Type, value: Expr },
    Assignment { target: AssignmentTarget, value: Expr },
    Print { value: Expr },
    Call { function_id: FunctionId, function_name: String, arguments: Vec<Expr> },
    Return { value: Option<Expr> },
    If { condition: Expr, then_body: Vec<Statement>, else_body: Vec<Statement> },
    While { condition: Expr, body: Vec<Statement> },
    For { initializer: Box<Statement>, condition: Expr, update: Box<Statement>, body: Vec<Statement> },
    Break,
    Continue,
}

/// The place an assignment writes: a binding and the array indices below it.
pub struct AssignmentTarget {
    pub id: BindingId,
    pub name: String,
    pub root_ty: Type,
    pub ty: Type,
    pub projections: Vec<AssignmentProjection>,
}

/// One array index step of an assignment target.
pub enum AssignmentProjection {
    Index { index: Expr, element: Type, length: usize, span: Span },
}

/// A field value of a checked constructor.
pub struct FieldValue {
    pub name: String,
    pub value: Expr,
}

/// A checked expression with its type.
pub struct Expr {
    pub ty: Type,
    pub kind: ExprKind,
}

/// The forms of a checked expression.
pub enum ExprKind {
    Constant { value: Box<Expr> },
    ArrayLength { value: Box<Expr> },
    StringByteLength { value: Box<Expr> },
    String(String),
    Boolean(bool),
    Integer(i128),
    Float { text: String },
    Variable { id: BindingId, name: String },
    Array(Vec<Expr>),
    Index { base: Box<Expr>, index: Box<Expr> },
    Logical { op: LogicalOp, left: Box<Expr>, right: Box<Expr> },
    Binary { op: BinaryOp, left: Box<Expr>, right: Box<Expr> },
    Unary { op: UnaryOp, value: Box<Expr> },
    Construct { type_id: TypeId, base: Option<Box<Expr>>, fields: Vec<FieldValue> },
    FieldAccess { field_name: String, base: Box<Expr> },
    ConvertNumeric { value: Box<Expr>, from: NumericType, to: NumericType },
    ConvertInteger { value: Box<Expr> },
    Call { function_id: FunctionId, function_name: String, arguments: Vec<Expr> },
}

} // verus!
