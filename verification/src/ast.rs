//! The syntax tree that the parser produces and the front-end passes rewrite.
use vstd::prelude::*;
use crate::source::{ConversionSyntax, Span};
use crate::text::same_text;
use crate::types::{integer_named, ConversionMode, IntegerType};

verus! {

/// A built-in type. Functions and user types cannot redefine these names.
#[derive(Debug, Clone, Copy, PartialEq, Eq, Structural)]
pub enum Type {
    Bool,
    String,
    Integer(IntegerType),
    F32,
    F64,
}

/// The built-in type that `name` denotes.
pub open spec fn builtin_named(name: Seq<char>) -> Option<Type> {
    if name == "bool"@ {
        Some(Type::Bool)
    } else if name == "string"@ {
        Some(Type::String)
    } else if name == "f32"@ {
        Some(Type::F32)
    } else if name == "f64"@ {
        Some(Type::F64)
    } else {
        match integer_named(name) {
            Some(ty) => Some(Type::Integer(ty)),
            None => None,
        }
    }
}

/// The number of bits of a floating built-in type.
pub open spec fn type_float_bits(t: Type) -> Option<nat> {
    match t {
        Type::F32 => Some(32),
        Type::F64 => Some(64),
        _ => None,
    }
}

/// A built-in type name says what the type is: an integer type by its own
/// name, a float as `f` and its width, and `bool` and `string`.
pub proof fn lemma_builtin_names_describe_types(name: Seq<char>)
    ensures
        builtin_named(name) matches Some(Type::Integer(i)) ==> name == crate::types::integer_name(i),
        builtin_named(name) matches Some(t) ==> (type_float_bits(t) matches Some(bits) ==> name == "f"@
            + crate::text::decimal(bits)),
        builtin_named(name) == Some(Type::Bool) ==> name == "bool"@,
        builtin_named(name) == Some(Type::String) ==> name == "string"@,
{
    reveal_strlit("f");
    reveal_strlit("f32");
    reveal_strlit("f64");
    assert(crate::text::decimal(3) =~= seq!['3']);
    assert(crate::text::decimal(6) =~= seq!['6']);
    assert(crate::text::decimal(32) =~= seq!['3', '2']);
    assert(crate::text::decimal(64) =~= seq!['6', '4']);
    assert("f"@ + crate::text::decimal(32) =~= "f32"@);
    assert("f"@ + crate::text::decimal(64) =~= "f64"@);
    crate::types::lemma_integer_named_inverts(name);
}

impl Type {
    /// Resolves the name of a built-in type.
    pub fn from_name(name: &str) -> (r: Option<Self>)
        ensures
            r == builtin_named(name@),
    {
        if same_text(name, "bool") {
            Some(Type::Bool)
        } else if same_text(name, "string") {
            Some(Type::String)
        } else if same_text(name, "f32") {
            Some(Type::F32)
        } else if same_text(name, "f64") {
            Some(Type::F64)
        } else {
            match IntegerType::from_name(name) {
                Some(ty) => Some(Type::Integer(ty)),
                None => None,
            }
        }
    }
}

/// A written type, or `infer`.
#[derive(Debug, PartialEq, Eq)]
pub enum TypeSpec {
    Explicit(TypeRef),
    Infer,
}

/// A type as written in the source, before semantic resolution.
#[derive(Debug, PartialEq, Eq)]
pub struct TypeRef {
    pub kind: TypeRefKind,
    pub span: Span,
}

impl TypeRef {
    /// Whether this is the plain name `expected`.
    pub fn is_named(&self, expected: &str) -> (r: bool)
        ensures
            r == (self.kind matches TypeRefKind::Named(name) && name@ == expected@),
    {
        match &self.kind {
            TypeRefKind::Named(name) => same_text(name.as_str(), expected),
            _ => false,
        }
    }
}

/// The shape of a written type, nesting kept.
#[derive(Debug, PartialEq, Eq)]
pub enum TypeRefKind {
    Named(String),
    ArrayConstant { element: Box<TypeRef>, constant: Box<ArrayLengthRef> },
    Array { element: Box<TypeRef>, length: usize },
}

/// An array length written as a constant's name.
#[derive(Debug, Clone, PartialEq, Eq)]
pub struct ArrayLengthRef {
    pub name: String,
    pub span: Span,
}

/// A parsed source file.
#[derive(Debug, PartialEq, Eq)]
pub struct Program {
    pub items: Vec<Item>,
}

/// The top-level statements among `items`, in order.
pub open spec fn statements_of(items: Seq<Item>) -> Seq<Stmt>
    decreases items.len(),
{
    if items.len() == 0 {
        Seq::empty()
    } else {
        let rest = statements_of(items.drop_last());
        match items.last() {
            Item::Statement(s) => rest.push(s),
            _ => rest,
        }
    }
}

impl Program {
    /// The `index`-th top-level statement, definitions skipped.
    pub fn statement(&self, index: usize) -> (r: &Stmt)
        requires
            index < statements_of(self.items@).len(),
        ensures
            *r == statements_of(self.items@)[index as int],
    {
        let mut i: usize = 0;
        let mut seen: usize = 0;
        while i < self.items.len()
            invariant
                i <= self.items@.len(),
                seen == statements_of(self.items@.take(i as int)).len(),
                index < statements_of(self.items@).len(),
                seen <= index,
                forall|k: int| 0 <= k < seen ==>
                    statements_of(self.items@.take(i as int))[k] == #[trigger] statements_of(self.items@)[k],
            decreases self.items@.len() - i,
        {
            proof {
                assert(self.items@.take(i as int + 1).drop_last() =~= self.items@.take(i as int));
                Self::lemma_statements_prefix(self.items@, i as int + 1);
            }
            match &self.items[i] {
                Item::Statement(statement) => {
                    if seen == index {
                        return statement;
                    }
                    seen = seen + 1;
                },
                _ => {},
            }
            i = i + 1;
        }
        proof {
            assert(self.items@.take(i as int) =~= self.items@);
        }
        vstd::pervasive::unreached()
    }

    proof fn lemma_statements_prefix(items: Seq<Item>, n: int)
        requires
            0 <= n <= items.len(),
        ensures
            statements_of(items.take(n)).len() <= statements_of(items).len(),
            forall|k: int| 0 <= k < statements_of(items.take(n)).len() ==>
                statements_of(items.take(n))[k] == #[trigger] statements_of(items)[k],
        decreases items.len() - n,
    {
        if n < items.len() {
            Self::lemma_statements_prefix(items, n + 1);
            assert(items.take(n + 1).drop_last() =~= items.take(n));
        } else {
            assert(items.take(n) =~= items);
        }
    }
}

/// A top-level item.
#[derive(Debug, PartialEq, Eq)]
pub enum Item {
    ConstantDefinition(ConstantDefinition),
    TypeDefinition(TypeDefinition),
    FunctionDefinition(FunctionDefinition),
    Statement(Stmt),
}

/// `const NAME: T = value;`
#[derive(Debug, PartialEq, Eq)]
pub struct ConstantDefinition {
    pub name: String,
    pub name_span: Span,
    pub type_ref: TypeRef,
    pub value: Expr,
    pub span: Span,
}

/// A function, possibly with generic parameters.
#[derive(Debug, PartialEq, Eq)]
pub struct FunctionDefinition {
    pub generic_parameters: Vec<GenericParameter>,
    pub name: String,
    pub name_span: Span,
    pub parameters: Vec<Parameter>,
    pub return_type: ReturnTypeRef,
    pub body: Vec<Stmt>,
    pub span: Span,
}

/// A generic parameter: a type, or (when `length` holds) a positive `i64` array length.
#[derive(Debug, Clone, PartialEq, Eq)]
pub struct GenericParameter {
    pub name: String,
    pub span: Span,
    pub length: bool,
}

/// An explicit generic argument; the parameter it meets decides what a name means.
#[derive(Debug, PartialEq, Eq)]
pub enum GenericArgument {
    Type(TypeRef),
    Length { value: usize, span: Span },
}

/// Where an instantiated function came from.
#[derive(Debug, Clone, PartialEq, Eq)]
pub struct GenericOrigin {
    pub template: String,
    pub definition: Span,
    pub arguments: Vec<String>,
    pub calls: Vec<GenericUse>,
}

/// One call site of an instantiation.
#[derive(Debug, Clone, PartialEq, Eq)]
pub struct GenericUse {
    pub span: Span,
    pub argument_spans: Vec<Span>,
}

/// `name::<arguments>(values)`.
#[derive(Debug, PartialEq, Eq)]
pub struct GenericCall {
    pub name: String,
    pub name_span: Span,
    pub generic_arguments: Vec<GenericArgument>,
    pub arguments: Vec<Expr>,
}

/// A function parameter.
#[derive(Debug, PartialEq, Eq)]
pub struct Parameter {
    pub name: String,
    pub name_span: Span,
    pub type_ref: TypeRef,
    pub span: Span,
}

/// A function's return type.
#[derive(Debug, PartialEq, Eq)]
pub enum ReturnTypeRef {
    Void(Span),
    Value(TypeRef),
}

/// A product type, or an enum when `variants` is present.
#[derive(Debug, PartialEq, Eq)]
pub struct TypeDefinition {
    pub variants: Option<Vec<VariantDefinition>>,
    pub name: String,
    pub name_span: Span,
    pub fields: Vec<FieldDefinition>,
    pub span: Span,
}

/// One enum variant with its payload fields.
#[derive(Debug, PartialEq, Eq)]
pub struct VariantDefinition {
    pub name: String,
    pub name_span: Span,
    pub fields: Vec<FieldDefinition>,
    pub span: Span,
}

/// `Enum::Variant { field: binding, .. } => { body }`
#[derive(Debug, PartialEq, Eq)]
pub struct MatchArm {
    pub variant: String,
    pub variant_span: Span,
    pub fields: Vec<PatternField>,
    pub body: Vec<Stmt>,
    pub span: Span,
}

/// `field: binding` in a match arm; `_` discards the value.
#[derive(Debug, Clone, PartialEq, Eq)]
pub struct PatternField {
    pub name: String,
    pub name_span: Span,
    pub binding: String,
    pub binding_span: Span,
}

/// A field of a product type or of an enum variant.
#[derive(Debug, PartialEq, Eq)]
pub struct FieldDefinition {
    pub name: String,
    pub name_span: Span,
    pub type_ref: TypeRef,
    pub default: Option<Expr>,
    pub span: Span,
}

/// A statement.
#[derive(Debug, PartialEq, Eq)]
pub struct Stmt {
    pub kind: StmtKind,
    pub span: Span,
}

/// The statement forms.
#[derive(Debug, PartialEq, Eq)]
pub enum StmtKind {
    ForEach {
        index: Option<IterationBinding>,
        element: IterationBinding,
        value: Expr,
        body: Vec<Stmt>,
        header_span: Span,
    },
    Match { value: Expr, arms: Vec<MatchArm> },
    Block(Vec<Stmt>),
    Binding { mutable: bool, name: String, type_spec: TypeSpec, value: Expr },
    Assignment { target: AssignmentTarget, value: Expr },
    Print { value: Expr },
    Call { value: Expr },
    Return { value: Option<Expr> },
    If { condition: Expr, then_body: Vec<Stmt>, else_body: Vec<Stmt> },
    While { condition: Expr, body: Vec<Stmt> },
    For { initializer: Box<Stmt>, condition: Expr, update: Box<Stmt>, body: Vec<Stmt> },
    Break,
    Continue,
}

/// A binding in an array-iteration header.
#[derive(Debug, PartialEq, Eq)]
pub struct IterationBinding {
    pub mutable: bool,
    pub name: String,
    pub type_spec: TypeSpec,
    pub span: Span,
}

/// `name[index]...` on the left of an assignment.
#[derive(Debug, PartialEq, Eq)]
pub struct AssignmentTarget {
    pub name: String,
    pub name_span: Span,
    pub projections: Vec<AssignmentProjection>,
    pub span: Span,
}

/// One projection of an assignment target.
#[derive(Debug, PartialEq, Eq)]
pub enum AssignmentProjection {
    Index { index: Expr, span: Span },
}

/// An expression.
#[derive(Debug, PartialEq, Eq)]
pub struct Expr {
    pub kind: ExprKind,
    pub span: Span,
}

/// A decimal integer literal whose type is not yet decided.
#[derive(Debug, Clone, PartialEq, Eq)]
pub struct IntegerLiteral {
    digits: String,
    explicit_type: Option<IntegerType>,
}

impl IntegerLiteral {
    /// The digits, without sign or type suffix.
    pub closed spec fn spec_digits(&self) -> Seq<char> {
        self.digits@
    }

    /// The type written after the digits, if any.
    pub closed spec fn spec_explicit_type(&self) -> Option<IntegerType> {
        self.explicit_type
    }

    /// A literal of unsigned decimal digits with no type suffix.
    pub fn decimal(digits: String) -> (r: Self)
        ensures
            r.spec_digits() == digits@,
            r.spec_explicit_type() == None::<IntegerType>,
    {
        IntegerLiteral { digits, explicit_type: None }
    }

    /// A literal with an explicit type.
    pub fn with_type(digits: String, ty: IntegerType) -> (r: Self)
        ensures
            r.spec_digits() == digits@,
            r.spec_explicit_type() == Some(ty),
    {
        IntegerLiteral { digits, explicit_type: Some(ty) }
    }

    /// The explicit type, if any.
    pub fn explicit_type(&self) -> (r: Option<IntegerType>)
        ensures
            r == self.spec_explicit_type(),
    {
        self.explicit_type
    }

    /// The decimal digits, without sign or type suffix.
    pub fn digits(&self) -> (r: &str)
        ensures
            r@ == self.spec_digits(),
    {
        self.digits.as_str()
    }
}

/// The expression forms.
#[derive(Debug, PartialEq, Eq)]
pub enum ExprKind {
    GenericCall(Box<GenericCall>),
    Logical { op: LogicalOp, left: Box<Expr>, right: Box<Expr> },
    Convert { mode: ConversionMode, target: TypeRef, value: Box<Expr>, syntax: ConversionSyntax },
    Boolean(bool),
    String(String),
    Integer(IntegerLiteral),
    Float { text: String, explicit_type: Option<Type> },
    Variable(String),
    Construct {
        type_path: String,
        type_path_span: Span,
        base: Option<Box<Expr>>,
        fields: Vec<FieldValue>,
    },
    FieldAccess { base: Box<Expr>, field_name: String, field_name_span: Span },
    Array(Vec<Expr>),
    Index { base: Box<Expr>, index: Box<Expr> },
    Call { name: String, name_span: Span, arguments: Vec<Expr> },
    Unary { op: UnaryOp, value: Box<Expr> },
    Binary { op: BinaryOp, left: Box<Expr>, right: Box<Expr> },
}

/// `name: value` in a constructor; `generated` marks values the front end added.
#[derive(Debug, PartialEq, Eq)]
pub struct FieldValue {
    pub generated: bool,
    pub name: String,
    pub name_span: Span,
    pub value: Expr,
    pub span: Span,
}

#[derive(Debug, Clone, Copy, PartialEq, Eq, Structural)]
pub enum UnaryOp {
    Negate,
    Not,
    BitNot,
}

#[derive(Debug, Clone, Copy, PartialEq, Eq, Structural)]
pub enum BinaryOp {
    Add,
    Subtract,
    Multiply,
    Divide,
    Remainder,
    BitAnd,
    BitOr,
    BitXor,
    ShiftLeft,
    ShiftRight,
    Equal,
    NotEqual,
    Less,
    LessEqual,
    Greater,
    GreaterEqual,
}

#[derive(Debug, Clone, Copy, PartialEq, Eq, Structural)]
pub enum LogicalOp {
    And,
    Or,
}

/// The value of `a op b` on numbers for the operators that mean the same
/// on every numeric type: the four arithmetic operators, and the
/// comparisons, which give 1 when they hold and 0 when not. Division by
/// zero has no value; remainder, bitwise operators and shifts are integer
/// operations of their own.
pub open spec fn binary_value(op: BinaryOp, a: int, b: int) -> Option<int> {
    match op {
        BinaryOp::Add => Some(a + b),
        BinaryOp::Subtract => Some(a - b),
        BinaryOp::Multiply => Some(a * b),
        BinaryOp::Divide => if b == 0 { None } else { Some(a / b) },
        BinaryOp::Equal => Some(if a == b { 1 } else { 0 }),
        BinaryOp::NotEqual => Some(if a != b { 1 } else { 0 }),
        BinaryOp::Less => Some(if a < b { 1 } else { 0 }),
        BinaryOp::LessEqual => Some(if a <= b { 1 } else { 0 }),
        BinaryOp::Greater => Some(if a > b { 1 } else { 0 }),
        BinaryOp::GreaterEqual => Some(if a >= b { 1 } else { 0 }),
        _ => None,
    }
}

/// Whether `op` compares its operands.
pub open spec fn is_comparison(op: BinaryOp) -> bool {
    ||| op == BinaryOp::Equal
    ||| op == BinaryOp::NotEqual
    ||| op == BinaryOp::Less
    ||| op == BinaryOp::LessEqual
    ||| op == BinaryOp::Greater
    ||| op == BinaryOp::GreaterEqual
}

/// The value of `op a` on numbers, with `false` as 0 and `true` as 1;
/// bit complement is an integer operation of its own.
pub open spec fn unary_value(op: UnaryOp, a: int) -> Option<int> {
    match op {
        UnaryOp::Negate => Some(-a),
        UnaryOp::Not => Some(if a == 0 { 1 } else { 0 }),
        UnaryOp::BitNot => None,
    }
}

} // verus!
