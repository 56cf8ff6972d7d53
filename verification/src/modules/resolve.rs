//! Name resolution across units: every definition gets a program-wide
//! name, and every reference, plain or through an import alias, is
//! replaced by the name of what it refers to.
use vstd::prelude::*;
use crate::ast::{
    builtin_named, AssignmentProjection, AssignmentTarget, ConstantDefinition, Expr, ExprKind,
    FieldDefinition, FieldValue, FunctionDefinition, IterationBinding, Item, MatchArm, Parameter,
    Program, ReturnTypeRef, Stmt, StmtKind, Type, TypeDefinition, TypeRef, TypeRefKind, TypeSpec,
    VariantDefinition,
};
use crate::diagnostic::Diagnostic;
use crate::modules::Unit;
use crate::source::{SourceId, Span};
use crate::text::{
    decimal, decimal_text, first_separator, last_separator, same_text, split_first_path,
    split_last_path,
};

verus! {

/// The three namespaces of definitions.
#[derive(Debug, Clone, Copy, PartialEq, Eq, Structural)]
pub enum DefinitionKind {
    Type,
    Function,
    Constant,
}

/// How messages name a kind of definition.
pub open spec fn kind_word(kind: DefinitionKind) -> Seq<char> {
    match kind {
        DefinitionKind::Type => "type"@,
        DefinitionKind::Function => "function"@,
        DefinitionKind::Constant => "constant"@,
    }
}

/// The name, name range and kind of a definition; statements define nothing.
pub open spec fn definition_of(item: Item) -> Option<(Seq<char>, Span, DefinitionKind)> {
    match item {
        Item::FunctionDefinition(d) => Some((d.name@, d.name_span, DefinitionKind::Function)),
        Item::TypeDefinition(d) => Some((d.name@, d.name_span, DefinitionKind::Type)),
        Item::ConstantDefinition(d) => Some((d.name@, d.name_span, DefinitionKind::Constant)),
        Item::Statement(_) => None,
    }
}

/// A name that no definition of this kind may take.
pub open spec fn reserved_definition(name: Seq<char>, kind: DefinitionKind) -> bool {
    builtin_named(name) is Some || (kind != DefinitionKind::Type && name == "byte_len"@)
}

/// Some import alias of the list reads `name`.
pub open spec fn has_alias(imports: Seq<(String, usize)>, name: Seq<char>) -> bool {
    exists|i: int| 0 <= i < imports.len() && (#[trigger] imports[i]).0@ == name
}

/// `item` defines `name` in the namespace `kind`.
pub open spec fn defines_as(item: Item, name: Seq<char>, kind: DefinitionKind) -> bool {
    definition_of(item) matches Some((n, _, k)) && n == name && k == kind
}

/// One of the first `k` items defines `name` in the namespace `kind`.
pub open spec fn defined_before(items: Seq<Item>, k: int, name: Seq<char>, kind: DefinitionKind) -> bool {
    exists|j: int| 0 <= j < k && #[trigger] defines_as(items[j], name, kind)
}

/// What is wrong with the definition at `k` of `unit`: a reserved name, a
/// name taken by an import alias, or a name defined earlier in the same
/// namespace of the unit.
pub open spec fn definition_problem(unit: Unit, k: int) -> Option<(Seq<char>, Span)> {
    match definition_of(unit.program.items@[k]) {
        None => None,
        Some((name, span, kind)) => {
            if reserved_definition(name, kind) {
                Some(("definition name `"@ + name + "` is reserved"@, span))
            } else if has_alias(unit.imports@, name) {
                Some(("definition `"@ + name + "` conflicts with an import alias"@, span))
            } else if defined_before(unit.program.items@, k, name, kind) {
                Some(("duplicate "@ + kind_word(kind) + " `"@ + name + "`"@, span))
            } else {
                None
            }
        },
    }
}

/// The first problem among the first `n` definitions of `unit`.
pub open spec fn unit_problem(unit: Unit, n: nat) -> Option<(Seq<char>, Span)>
    decreases n,
{
    if n == 0 {
        None
    } else {
        match unit_problem(unit, (n - 1) as nat) {
            Some(p) => Some(p),
            None => definition_problem(unit, n - 1),
        }
    }
}

/// The first problem among the definitions of the first `n` units.
pub open spec fn naming_problem(units: Seq<Unit>, n: nat) -> Option<(Seq<char>, Span)>
    decreases n,
{
    if n == 0 {
        None
    } else {
        match naming_problem(units, (n - 1) as nat) {
            Some(p) => Some(p),
            None => unit_problem(units[n - 1], units[n - 1].program.items@.len()),
        }
    }
}

/// The program-wide name of a definition: `main` stays `main` for a
/// function of the first unit; every other name is prefixed by its unit.
pub open spec fn global_name(unit_index: int, id: SourceId, name: Seq<char>, kind: DefinitionKind) -> Seq<char> {
    if unit_index == 0 && kind == DefinitionKind::Function && name == "main"@ {
        name
    } else {
        "module_"@ + decimal(id.index as nat) + "_"@ + name
    }
}

/// A definition as other code sees it: its program-wide name, whether the
/// unit exports it, and, for a type, whether it is an enum.
#[derive(Debug, Clone, PartialEq, Eq)]
pub struct Symbol {
    pub name: String,
    pub public: bool,
    pub is_enum: bool,
}

/// The definitions of one unit, by namespace, each under its written name.
pub struct Names {
    pub functions: Vec<(String, Symbol)>,
    pub types: Vec<(String, Symbol)>,
    pub constants: Vec<(String, Symbol)>,
}

/// The parts of a symbol that references see: its name, whether it is
/// exported, and whether it is an enum.
pub open spec fn symbol_view(symbol: Symbol) -> (Seq<char>, bool, bool) {
    (symbol.name@, symbol.public, symbol.is_enum)
}

/// The view of a symbol that may be missing.
pub open spec fn found_view(symbol: Option<Symbol>) -> Option<(Seq<char>, bool, bool)> {
    match symbol {
        Some(s) => Some(symbol_view(s)),
        None => None,
    }
}

/// The first of the first `n` items that defines `member` in namespace `kind`.
pub open spec fn first_definition(items: Seq<Item>, n: nat, kind: DefinitionKind, member: Seq<char>) -> Option<int>
    decreases n,
{
    if n == 0 {
        None
    } else {
        match first_definition(items, (n - 1) as nat, kind, member) {
            Some(k) => Some(k),
            None => if defines_as(items[n - 1], member, kind) { Some(n - 1) } else { None },
        }
    }
}

/// The unit exports the definition whose name lies at `span`.
pub open spec fn exported(exports: Seq<(String, Span)>, span: Span) -> bool {
    exists|i: int| 0 <= i < exports.len() && (#[trigger] exports[i]).1 == span
}

/// `item` defines an enum.
pub open spec fn is_enum_definition(item: Item) -> bool {
    item matches Item::TypeDefinition(d) && d.variants is Some
}

/// How other code sees the definition at `k` of the unit at position
/// `unit_index`.
pub open spec fn definition_symbol(unit_index: int, unit: Unit, k: int) -> (Seq<char>, bool, bool) {
    match definition_of(unit.program.items@[k]) {
        Some((name, span, kind)) => (
            global_name(unit_index, unit.id, name, kind),
            exported(unit.exports@, span),
            is_enum_definition(unit.program.items@[k]),
        ),
        None => (Seq::empty(), false, false),
    }
}

/// How other code sees the first definition of `member` in namespace
/// `kind` among the first `n` items of a unit.
pub open spec fn prefix_symbol(unit_index: int, unit: Unit, n: nat, kind: DefinitionKind, member: Seq<char>) -> Option<
    (Seq<char>, bool, bool),
> {
    match first_definition(unit.program.items@, n, kind, member) {
        Some(k) => Some(definition_symbol(unit_index, unit, k)),
        None => None,
    }
}

/// How other code sees the definition of `member` in namespace `kind` of a unit.
pub open spec fn unit_symbol(unit_index: int, unit: Unit, kind: DefinitionKind, member: Seq<char>) -> Option<
    (Seq<char>, bool, bool),
> {
    prefix_symbol(unit_index, unit, unit.program.items@.len(), kind, member)
}

/// The tables list what the unit defines.
pub open spec fn tables_match(names: Names, unit_index: int, unit: Unit) -> bool {
    forall|kind: DefinitionKind, member: Seq<char>|
        found_view(#[trigger] lookup(table(names, kind), member)) == unit_symbol(unit_index, unit, kind, member)
}

/// The table of a namespace.
pub open spec fn table(names: Names, kind: DefinitionKind) -> Seq<(String, Symbol)> {
    match kind {
        DefinitionKind::Function => names.functions@,
        DefinitionKind::Type => names.types@,
        DefinitionKind::Constant => names.constants@,
    }
}

/// The symbol of the first entry named `name`.
pub open spec fn lookup(entries: Seq<(String, Symbol)>, name: Seq<char>) -> Option<Symbol>
    decreases entries.len(),
{
    if entries.len() == 0 {
        None
    } else if entries[0].0@ == name {
        Some(entries[0].1)
    } else {
        lookup(entries.skip(1), name)
    }
}

/// The unit that the first import alias `alias` names.
pub open spec fn alias_target(imports: Seq<(String, usize)>, alias: Seq<char>) -> Option<usize>
    decreases imports.len(),
{
    if imports.len() == 0 {
        None
    } else if imports[0].0@ == alias {
        Some(imports[0].1)
    } else {
        alias_target(imports.skip(1), alias)
    }
}

/// What a reference written `written` resolves to, given what it found:
/// nothing is an unknown name; a private symbol is refused through an
/// import or in a public signature.
pub open spec fn member_resolution(
    found: Option<(Seq<char>, bool, bool)>,
    kind: DefinitionKind,
    written: Seq<char>,
    qualified: bool,
    public: bool,
) -> Result<Seq<char>, Seq<char>> {
    match found {
        None => Err("unknown "@ + kind_word(kind) + " `"@ + written + "`"@),
        Some((name, is_public, _)) => {
            if (qualified || public) && !is_public {
                Err("private "@ + kind_word(kind) + " `"@ + written + "` cannot be used "@ + (
                if qualified {
                    "through an import"@
                } else {
                    "in a public signature"@
                }))
            } else {
                Ok(name)
            }
        },
    }
}

/// What the reference `name` of namespace `kind` in the unit at position
/// `current` resolves to: `alias::member` looks in the unit that the alias
/// imports, a plain name in the current unit.
pub open spec fn name_resolution(
    units: Seq<Unit>,
    current: int,
    name: Seq<char>,
    kind: DefinitionKind,
    public: bool,
) -> Result<Seq<char>, Seq<char>> {
    match first_separator(name) {
        Some(i) => match alias_target(units[current].imports@, name.take(i)) {
            None => Err("unknown import alias `"@ + name.take(i) + "`"@),
            Some(target) => member_resolution(
                unit_symbol(target as int, units[target as int], kind, name.skip(i + 2)),
                kind,
                name,
                true,
                public,
            ),
        },
        None => member_resolution(unit_symbol(current, units[current], kind, name), kind, name, false, public),
    }
}

/// Every import alias names one of `count` units.
pub open spec fn imports_valid(imports: Seq<(String, usize)>, count: int) -> bool {
    forall|i: int| 0 <= i < imports.len() ==> (#[trigger] imports[i]).1 < count
}

proof fn lemma_lookup_skip(entries: Seq<(String, Symbol)>, name: Seq<char>, i: int)
    requires
        0 <= i < entries.len(),
        entries[i].0@ != name,
    ensures
        lookup(entries.skip(i), name) == lookup(entries.skip(i + 1), name),
{
    assert(entries.skip(i).skip(1) =~= entries.skip(i + 1));
}

proof fn lemma_lookup_push(entries: Seq<(String, Symbol)>, entry: (String, Symbol), name: Seq<char>)
    ensures
        lookup(entries.push(entry), name) == (if lookup(entries, name) is Some {
            lookup(entries, name)
        } else if entry.0@ == name {
            Some(entry.1)
        } else {
            None
        }),
    decreases entries.len(),
{
    if entries.len() > 0 {
        let pushed = entries.push(entry);
        assert(pushed[0] == entries[0]);
        assert(pushed.skip(1) =~= entries.skip(1).push(entry));
        lemma_lookup_push(entries.skip(1), entry, name);
        if entries[0].0@ == name {
            assert(lookup(pushed, name) == Some(entries[0].1));
            assert(lookup(entries, name) == Some(entries[0].1));
        } else {
            assert(lookup(pushed, name) == lookup(pushed.skip(1), name));
            assert(lookup(entries, name) == lookup(entries.skip(1), name));
        }
    } else {
        let pushed = entries.push(entry);
        assert(pushed.skip(1) =~= Seq::<(String, Symbol)>::empty());
        assert(pushed[0] == entry);
        assert(lookup(pushed.skip(1), name) is None);
        assert(lookup(entries, name) is None);
    }
}

proof fn lemma_alias_skip(imports: Seq<(String, usize)>, alias: Seq<char>, i: int)
    requires
        0 <= i < imports.len(),
        imports[i].0@ != alias,
    ensures
        alias_target(imports.skip(i), alias) == alias_target(imports.skip(i + 1), alias),
{
    assert(imports.skip(i).skip(1) =~= imports.skip(i + 1));
}

proof fn lemma_alias_in_range(imports: Seq<(String, usize)>, alias: Seq<char>, count: int)
    requires
        imports_valid(imports, count),
    ensures
        alias_target(imports, alias) matches Some(t) ==> t < count,
    decreases imports.len(),
{
    if imports.len() > 0 && imports[0].0@ != alias {
        assert(imports_valid(imports.skip(1), count)) by {
            assert forall|i: int| 0 <= i < imports.skip(1).len() implies (#[trigger] imports.skip(1)[i]).1 < count by {
                assert(imports.skip(1)[i] == imports[i + 1]);
            }
        }
        lemma_alias_in_range(imports.skip(1), alias, count);
    }
}

/// The symbol of the first entry named `name`, with its position.
fn find_symbol(entries: &Vec<(String, Symbol)>, name: &str) -> (r: Option<usize>)
    ensures
        r matches Some(i) ==> i < entries@.len() && lookup(entries@, name@) == Some(entries@[i as int].1),
        r is None ==> lookup(entries@, name@) is None,
{
    let mut i: usize = 0;
    assert(entries@.skip(0) =~= entries@);
    while i < entries.len()
        invariant
            i <= entries@.len(),
            lookup(entries@, name@) == lookup(entries@.skip(i as int), name@),
        decreases entries@.len() - i,
    {
        if same_text(entries[i].0.as_str(), name) {
            return Some(i);
        }
        proof {
            lemma_lookup_skip(entries@, name@, i as int);
        }
        i = i + 1;
    }
    None
}

/// The unit named by the first import alias `alias`.
fn find_alias(imports: &Vec<(String, usize)>, alias: &str) -> (r: Option<usize>)
    ensures
        r == alias_target(imports@, alias@),
{
    let mut i: usize = 0;
    assert(imports@.skip(0) =~= imports@);
    while i < imports.len()
        invariant
            i <= imports@.len(),
            alias_target(imports@, alias@) == alias_target(imports@.skip(i as int), alias@),
        decreases imports@.len() - i,
    {
        if same_text(imports[i].0.as_str(), alias) {
            return Some(imports[i].1);
        }
        proof {
            lemma_alias_skip(imports@, alias@, i as int);
        }
        i = i + 1;
    }
    None
}

/// The table of a namespace.
fn table_of(names: &Names, kind: DefinitionKind) -> (r: &Vec<(String, Symbol)>)
    ensures
        r@ == table(*names, kind),
{
    match kind {
        DefinitionKind::Function => &names.functions,
        DefinitionKind::Type => &names.types,
        DefinitionKind::Constant => &names.constants,
    }
}

/// The message word of a namespace.
fn kind_text(kind: DefinitionKind) -> (r: &'static str)
    ensures
        r@ == kind_word(kind),
{
    match kind {
        DefinitionKind::Type => "type",
        DefinitionKind::Function => "function",
        DefinitionKind::Constant => "constant",
    }
}

/// Resolves `member` in one namespace of one unit.
fn resolve_member(
    names: &Names,
    kind: DefinitionKind,
    member: &str,
    written: &str,
    qualified: bool,
    public: bool,
    span: Span,
) -> (r: Result<String, Diagnostic>)
    ensures
        member_resolution(found_view(lookup(table(*names, kind), member@)), kind, written@, qualified, public)
            matches Ok(n) ==> r matches Ok(s) && s@ == n,
        member_resolution(found_view(lookup(table(*names, kind), member@)), kind, written@, qualified, public)
            matches Err(m) ==> r matches Err(e) && e.message@ == m && e.span == Some(span),
{
    let entries = table_of(names, kind);
    let word = kind_text(kind);
    match find_symbol(entries, member) {
        None => {
            let mut message = String::from_str("unknown ");
            message.append(word);
            message.append(" `");
            message.append(written);
            message.append("`");
            Err(Diagnostic::new(message, span))
        },
        Some(i) => {
            let symbol = &entries[i].1;
            if (qualified || public) && !symbol.public {
                let mut message = String::from_str("private ");
                message.append(word);
                message.append(" `");
                message.append(written);
                message.append("` cannot be used ");
                if qualified {
                    message.append("through an import");
                } else {
                    message.append("in a public signature");
                }
                return Err(Diagnostic::new(message, span));
            }
            Ok(symbol.name.clone())
        },
    }
}

proof fn lemma_alias_target_some(imports: Seq<(String, usize)>, alias: Seq<char>)
    ensures
        alias_target(imports, alias) is Some <==> has_alias(imports, alias),
    decreases imports.len(),
{
    if imports.len() > 0 {
        lemma_alias_target_some(imports.skip(1), alias);
        if has_alias(imports, alias) && imports[0].0@ != alias {
            let i = choose|i: int| 0 <= i < imports.len() && (#[trigger] imports[i]).0@ == alias;
            assert(imports.skip(1)[i - 1] == imports[i]);
        }
        if has_alias(imports.skip(1), alias) {
            let i = choose|i: int| 0 <= i < imports.skip(1).len() && (#[trigger] imports.skip(1)[i]).0@ == alias;
            assert(imports[i + 1] == imports.skip(1)[i]);
        }
    }
}

/// The unit at position `current` defines an enum named `name`.
pub open spec fn names_enum(units: Seq<Unit>, current: int, name: Seq<char>) -> bool {
    unit_symbol(current, units[current], DefinitionKind::Type, name) matches Some((_, _, is_enum)) && is_enum
}

/// What a constructor path resolves to: `Enum::Variant` (or any path
/// whose prefix is itself qualified) keeps its variant and resolves the
/// enum; any other path is a type name.
pub open spec fn constructor_resolution(units: Seq<Unit>, current: int, path: Seq<char>) -> Result<Seq<char>, Seq<char>> {
    match last_separator(path) {
        Some(i) => {
            let prefix = path.take(i);
            if first_separator(prefix) is Some || names_enum(units, current, prefix) {
                match name_resolution(units, current, prefix, DefinitionKind::Type, false) {
                    Ok(n) => Ok(n + "::"@ + path.skip(i + 2)),
                    Err(m) => Err(m),
                }
            } else {
                name_resolution(units, current, path, DefinitionKind::Type, false)
            }
        },
        None => name_resolution(units, current, path, DefinitionKind::Type, false),
    }
}

/// The unit at position `current` defines a constant named `name`.
pub open spec fn names_constant(units: Seq<Unit>, current: int, name: Seq<char>) -> bool {
    unit_symbol(current, units[current], DefinitionKind::Constant, name) is Some
}

/// Some resolution of the written type `a` exists: every name it uses resolves.
pub open spec fn type_resolvable(units: Seq<Unit>, current: int, public: bool, a: TypeRef) -> bool {
    exists|b: TypeRef| resolves_type(units, current, public, a, b)
}

/// Some resolution of the expression `a` exists.
pub open spec fn expr_resolvable(units: Seq<Unit>, current: int, a: Expr) -> bool {
    exists|b: Expr| resolves_expr(units, current, a, b)
}

/// Some resolution of the statement `a` exists: its names resolve and its
/// bindings are allowed.
pub open spec fn stmt_resolvable(units: Seq<Unit>, current: int, a: Stmt) -> bool {
    exists|b: Stmt| resolves_stmt(units, current, a, b)
}

/// Some resolution of the match arm `arm` exists: its enum resolves, its
/// pattern bindings are allowed and its body resolves.
pub open spec fn arm_resolvable(units: Seq<Unit>, current: int, arm: MatchArm) -> bool {
    &&& exists|v: Seq<char>| resolves_arm_variant(units, current, arm.variant@, v)
    &&& forall|f: int| 0 <= f < arm.fields@.len() && arm.fields@[f].binding@ != "_"@
        ==> binding_allowed(units, current, #[trigger] arm.fields@[f].binding@)
    &&& forall|j: int| 0 <= j < arm.body@.len() ==> stmt_resolvable(units, current, #[trigger] arm.body@[j])
}

/// Some resolution of item `a` of the unit at position `u` exists.
pub open spec fn item_resolvable(units: Seq<Unit>, u: int, a: Item) -> bool {
    exists|b: Item| resolves_item(units, u, a, b)
}

/// A local binding may take `name` in the unit at position `current`: no
/// constant of the unit and no import alias is named so.
pub open spec fn binding_allowed(units: Seq<Unit>, current: int, name: Seq<char>) -> bool {
    &&& !names_constant(units, current, name)
    &&& !has_alias(units[current].imports@, name)
}

/// `b` is the written type `a` with its defined type names resolved from
/// the unit at position `current`; `public` marks a public signature.
pub open spec fn resolves_type(units: Seq<Unit>, current: int, public: bool, a: TypeRef, b: TypeRef) -> bool
    decreases a,
{
    &&& a.span == b.span
    &&& match a.kind {
        TypeRefKind::Named(x) => (b.kind matches TypeRefKind::Named(y) && (if builtin_named(x@) is Some || x@ == "infer"@ {
            y@ == x@
        } else {
            name_resolution(units, current, x@, DefinitionKind::Type, public) == Ok::<Seq<char>, Seq<char>>(y@)
        })),
        TypeRefKind::Array { element, length } => (b.kind matches TypeRefKind::Array { element: e, length: l } && l == length
            && resolves_type(units, current, public, *element, *e)),
        TypeRefKind::ArrayConstant { .. } => b.kind == a.kind,
    }
}

/// `b` is the optional written type `a`, resolved.
pub open spec fn resolves_spec(units: Seq<Unit>, current: int, a: TypeSpec, b: TypeSpec) -> bool {
    match a {
        TypeSpec::Explicit(t) => (b matches TypeSpec::Explicit(u) && resolves_type(units, current, false, t, u)),
        TypeSpec::Infer => b is Infer,
    }
}

/// What a variable name becomes: a qualified name or a constant of the
/// unit is resolved as a constant; any other name is a local and stays.
pub open spec fn resolves_variable(units: Seq<Unit>, current: int, a: Seq<char>, b: Seq<char>) -> bool {
    if first_separator(a) is Some || names_constant(units, current, a) {
        name_resolution(units, current, a, DefinitionKind::Constant, false) == Ok::<Seq<char>, Seq<char>>(b)
    } else {
        b == a
    }
}

/// `b` is the expression `a` with its references resolved from the unit
/// at position `current`.
pub open spec fn resolves_expr(units: Seq<Unit>, current: int, a: Expr, b: Expr) -> bool
    decreases a,
{
    &&& a.span == b.span
    &&& match a.kind {
        ExprKind::Call { name, name_span, arguments } => (b.kind matches ExprKind::Call {
            name: n,
            name_span: s,
            arguments: args,
        } && s == name_span && (if name@ == "byte_len"@ {
            n@ == name@
        } else {
            name_resolution(units, current, name@, DefinitionKind::Function, false) == Ok::<Seq<char>, Seq<char>>(n@)
        }) && args@.len() == arguments@.len() && forall|i: int|
            0 <= i < arguments@.len() ==> resolves_expr(units, current, #[trigger] arguments@[i], args@[i])),
        ExprKind::Construct { type_path, type_path_span, base, fields } => (b.kind matches ExprKind::Construct {
            type_path: p,
            type_path_span: ps,
            base: bb,
            fields: fs,
        } && ps == type_path_span && constructor_resolution(units, current, type_path@) == Ok::<Seq<char>, Seq<char>>(p@)
            && (match base {
            Some(x) => (bb matches Some(y) && resolves_expr(units, current, *x, *y)),
            None => bb is None,
        }) && fs@.len() == fields@.len() && forall|i: int|
            0 <= i < fields@.len() ==> fs@[i].name@ == (#[trigger] fields@[i]).name@ && resolves_expr(
                units,
                current,
                fields@[i].value,
                fs@[i].value,
            )),
        ExprKind::Convert { mode, target, value, syntax } => (b.kind matches ExprKind::Convert {
            mode: m,
            target: t,
            value: v,
            syntax: x,
        } && m == mode && x == syntax && resolves_type(units, current, false, target, t) && resolves_expr(
            units,
            current,
            *value,
            *v,
        )),
        ExprKind::Array(values) => (b.kind matches ExprKind::Array(vs) && vs@.len() == values@.len() && forall|i: int|
            0 <= i < values@.len() ==> resolves_expr(units, current, #[trigger] values@[i], vs@[i])),
        ExprKind::Index { base, index } => (b.kind matches ExprKind::Index { base: x, index: y } && resolves_expr(
            units,
            current,
            *base,
            *x,
        ) && resolves_expr(units, current, *index, *y)),
        ExprKind::FieldAccess { base, field_name, field_name_span } => (b.kind matches ExprKind::FieldAccess {
            base: x,
            field_name: f,
            field_name_span: fs,
        } && f@ == field_name@ && fs == field_name_span && resolves_expr(units, current, *base, *x)),
        ExprKind::Unary { op, value } => (b.kind matches ExprKind::Unary { op: o, value: v } && o == op && resolves_expr(
            units,
            current,
            *value,
            *v,
        )),
        ExprKind::Logical { op, left, right } => (b.kind matches ExprKind::Logical { op: o, left: l, right: r } && o
            == op && resolves_expr(units, current, *left, *l) && resolves_expr(units, current, *right, *r)),
        ExprKind::Binary { op, left, right } => (b.kind matches ExprKind::Binary { op: o, left: l, right: r } && o
            == op && resolves_expr(units, current, *left, *l) && resolves_expr(units, current, *right, *r)),
        ExprKind::Variable(name) => (b.kind matches ExprKind::Variable(n) && resolves_variable(units, current, name@, n@)),
        _ => b.kind == a.kind,
    }
}

/// The variant path `Enum::Variant` of a match arm, with the enum resolved
/// and the variant kept.
pub open spec fn resolves_arm_variant(units: Seq<Unit>, current: int, a: Seq<char>, b: Seq<char>) -> bool {
    match last_separator(a) {
        Some(i) => (name_resolution(units, current, a.take(i), DefinitionKind::Type, false) matches Ok(n) && b == n
            + "::"@ + a.skip(i + 2)),
        None => false,
    }
}

/// `b` is the iteration binding `a` with its written type resolved.
pub open spec fn resolves_binding(units: Seq<Unit>, current: int, a: IterationBinding, b: IterationBinding) -> bool {
    &&& b.mutable == a.mutable
    &&& b.name@ == a.name@
    &&& b.span == a.span
    &&& binding_allowed(units, current, a.name@)
    &&& resolves_spec(units, current, a.type_spec, b.type_spec)
}

/// `b` is the statement `a` with its references resolved from the unit at
/// position `current`.
pub open spec fn resolves_stmt(units: Seq<Unit>, current: int, a: Stmt, b: Stmt) -> bool
    decreases a,
{
    &&& a.span == b.span
    &&& match a.kind {
        StmtKind::Block(body) => (b.kind matches StmtKind::Block(out) && out@.len() == body@.len() && forall|i: int|
            0 <= i < body@.len() ==> resolves_stmt(units, current, #[trigger] body@[i], out@[i])),
        StmtKind::Match { value, arms } => (b.kind matches StmtKind::Match { value: v, arms: out } && resolves_expr(
            units,
            current,
            value,
            v,
        ) && out@.len() == arms@.len() && forall|i: int|
            0 <= i < arms@.len() ==> {
                &&& resolves_arm_variant(units, current, (#[trigger] arms@[i]).variant@, out@[i].variant@)
                &&& forall|f: int| 0 <= f < arms@[i].fields@.len() && arms@[i].fields@[f].binding@ != "_"@
                    ==> binding_allowed(units, current, #[trigger] arms@[i].fields@[f].binding@)
                &&& out@[i].body@.len() == arms@[i].body@.len()
                &&& forall|j: int|
                    0 <= j < arms@[i].body@.len() ==> resolves_stmt(units, current, #[trigger] arms@[i].body@[j], out@[i].body@[j])
            }),
        StmtKind::Binding { mutable, name, type_spec, value } => (b.kind matches StmtKind::Binding {
            mutable: m,
            name: n,
            type_spec: t,
            value: v,
        } && m == mutable && n@ == name@ && binding_allowed(units, current, name@) && resolves_spec(units, current, type_spec, t) && resolves_expr(
            units,
            current,
            value,
            v,
        )),
        StmtKind::Assignment { target, value } => (b.kind matches StmtKind::Assignment { target: t, value: v } && !names_constant(units, current, target.name@) && t.name@
            == target.name@ && t.name_span == target.name_span && t.span == target.span && t.projections@.len()
            == target.projections@.len() && (forall|i: int|
            0 <= i < target.projections@.len() ==> resolves_expr(
                units,
                current,
                (#[trigger] target.projections@[i])->index,
                t.projections@[i]->index,
            )) && resolves_expr(units, current, value, v)),
        StmtKind::Print { value } => (b.kind matches StmtKind::Print { value: v } && resolves_expr(units, current, value, v)),
        StmtKind::Call { value } => (b.kind matches StmtKind::Call { value: v } && resolves_expr(units, current, value, v)),
        StmtKind::Return { value } => (b.kind matches StmtKind::Return { value: v } && match value {
            Some(x) => (v matches Some(y) && resolves_expr(units, current, x, y)),
            None => v is None,
        }),
        StmtKind::If { condition, then_body, else_body } => (b.kind matches StmtKind::If {
            condition: c,
            then_body: t,
            else_body: e,
        } && resolves_expr(units, current, condition, c) && t@.len() == then_body@.len() && e@.len()
            == else_body@.len() && (forall|i: int|
            0 <= i < then_body@.len() ==> resolves_stmt(units, current, #[trigger] then_body@[i], t@[i])) && (forall|i: int|
            0 <= i < else_body@.len() ==> resolves_stmt(units, current, #[trigger] else_body@[i], e@[i]))),
        StmtKind::While { condition, body } => (b.kind matches StmtKind::While { condition: c, body: out } && resolves_expr(
            units,
            current,
            condition,
            c,
        ) && out@.len() == body@.len() && forall|i: int|
            0 <= i < body@.len() ==> resolves_stmt(units, current, #[trigger] body@[i], out@[i])),
        StmtKind::For { initializer, condition, update, body } => (b.kind matches StmtKind::For {
            initializer: i2,
            condition: c,
            update: u,
            body: out,
        } && resolves_stmt(units, current, *initializer, *i2) && resolves_expr(units, current, condition, c)
            && resolves_stmt(units, current, *update, *u) && out@.len() == body@.len() && forall|i: int|
            0 <= i < body@.len() ==> resolves_stmt(units, current, #[trigger] body@[i], out@[i])),
        StmtKind::ForEach { index, element, value, body, header_span } => (b.kind matches StmtKind::ForEach {
            index: i2,
            element: e2,
            value: v,
            body: out,
            header_span: h,
        } && h == header_span && resolves_binding(units, current, element, e2) && (match index {
            Some(x) => (i2 matches Some(y) && resolves_binding(units, current, x, y)),
            None => i2 is None,
        }) && resolves_expr(units, current, value, v) && out@.len() == body@.len() && forall|i: int|
            0 <= i < body@.len() ==> resolves_stmt(units, current, #[trigger] body@[i], out@[i])),
        StmtKind::Break => b.kind is Break,
        StmtKind::Continue => b.kind is Continue,
    }
}

/// `b` lists the fields `a` with their types resolved (in a public
/// signature where `public` holds) and, where `defaults` holds, their
/// default values resolved; otherwise the defaults are kept as written.
pub open spec fn resolves_fields(
    units: Seq<Unit>,
    current: int,
    public: bool,
    defaults: bool,
    a: Seq<FieldDefinition>,
    b: Seq<FieldDefinition>,
) -> bool {
    &&& b.len() == a.len()
    &&& forall|i: int| 0 <= i < a.len() ==> {
        &&& b[i].name@ == (#[trigger] a[i]).name@
        &&& resolves_type(units, current, public, a[i].type_ref, b[i].type_ref)
        &&& if defaults {
            match a[i].default {
                Some(x) => (b[i].default matches Some(y) && resolves_expr(units, current, x, y)),
                None => b[i].default is None,
            }
        } else {
            b[i].default == a[i].default
        }
    }
}

/// `b` is the item `a` of the unit at position `u` once resolved: a
/// definition takes its program-wide name, and its types, values and body
/// have their references resolved (types of an exported definition count
/// as a public signature; the defaults of enum payload fields are kept).
pub open spec fn resolves_item(units: Seq<Unit>, u: int, a: Item, b: Item) -> bool {
    let unit = units[u];
    match a {
        Item::ConstantDefinition(d) => (b matches Item::ConstantDefinition(e) && e.name@ == global_name(
            u,
            unit.id,
            d.name@,
            DefinitionKind::Constant,
        ) && e.name_span == d.name_span && e.span == d.span && resolves_type(
            units,
            u,
            exported(unit.exports@, d.name_span),
            d.type_ref,
            e.type_ref,
        ) && resolves_expr(units, u, d.value, e.value)),
        Item::TypeDefinition(d) => (b matches Item::TypeDefinition(e) && e.name@ == global_name(
            u,
            unit.id,
            d.name@,
            DefinitionKind::Type,
        ) && e.name_span == d.name_span && e.span == d.span && resolves_fields(
            units,
            u,
            exported(unit.exports@, d.name_span),
            true,
            d.fields@,
            e.fields@,
        ) && match d.variants {
            Some(vs) => (e.variants matches Some(ws) && ws@.len() == vs@.len() && forall|i: int|
                0 <= i < vs@.len() ==> ws@[i].name@ == (#[trigger] vs@[i]).name@ && resolves_fields(
                    units,
                    u,
                    exported(unit.exports@, d.name_span),
                    false,
                    vs@[i].fields@,
                    ws@[i].fields@,
                )),
            None => e.variants is None,
        }),
        Item::FunctionDefinition(d) => (b matches Item::FunctionDefinition(e) && e.name@ == global_name(
            u,
            unit.id,
            d.name@,
            DefinitionKind::Function,
        ) && e.name_span == d.name_span && e.span == d.span && e.generic_parameters == d.generic_parameters
            && e.parameters@.len() == d.parameters@.len() && (forall|i: int|
            0 <= i < d.parameters@.len() ==> e.parameters@[i].name@ == (#[trigger] d.parameters@[i]).name@
                && binding_allowed(units, u, d.parameters@[i].name@) && resolves_type(
                units,
                u,
                exported(unit.exports@, d.name_span),
                d.parameters@[i].type_ref,
                e.parameters@[i].type_ref,
            )) && (match d.return_type {
            ReturnTypeRef::Void(span) => e.return_type == ReturnTypeRef::Void(span),
            ReturnTypeRef::Value(t) => (e.return_type matches ReturnTypeRef::Value(t2) && resolves_type(
                units,
                u,
                exported(unit.exports@, d.name_span),
                t,
                t2,
            )),
        }) && e.body@.len() == d.body@.len() && forall|i: int|
            0 <= i < d.body@.len() ==> resolves_stmt(units, u, #[trigger] d.body@[i], e.body@[i])),
        Item::Statement(statement) => (b matches Item::Statement(t) && resolves_stmt(units, u, statement, t)),
    }
}

/// The parts of a resolvable statement are resolvable.
proof fn lemma_stmt_parts_resolvable(units: Seq<Unit>, cur: int, a: Stmt, b: Stmt)
    requires
        resolves_stmt(units, cur, a, b),
    ensures
        match a.kind {
            StmtKind::Block(body) => forall|i: int| 0 <= i < body@.len() ==> stmt_resolvable(units, cur, #[trigger] body@[i]),
            StmtKind::Match { value, arms } => expr_resolvable(units, cur, value) && forall|i: int|
                0 <= i < arms@.len() ==> arm_resolvable(units, cur, #[trigger] arms@[i]),
            StmtKind::Binding { name, type_spec, value, .. } => {
                &&& binding_allowed(units, cur, name@)
                &&& (type_spec matches TypeSpec::Explicit(t) ==> type_resolvable(units, cur, false, t))
                &&& expr_resolvable(units, cur, value)
            },
            StmtKind::Assignment { target, value } => {
                &&& !names_constant(units, cur, target.name@)
                &&& forall|i: int| 0 <= i < target.projections@.len() ==> expr_resolvable(units, cur, (#[trigger] target.projections@[i])->index)
                &&& expr_resolvable(units, cur, value)
            },
            StmtKind::Print { value } => expr_resolvable(units, cur, value),
            StmtKind::Call { value } => expr_resolvable(units, cur, value),
            StmtKind::Return { value } => value matches Some(v) ==> expr_resolvable(units, cur, v),
            StmtKind::If { condition, then_body, else_body } => {
                &&& expr_resolvable(units, cur, condition)
                &&& forall|i: int| 0 <= i < then_body@.len() ==> stmt_resolvable(units, cur, #[trigger] then_body@[i])
                &&& forall|i: int| 0 <= i < else_body@.len() ==> stmt_resolvable(units, cur, #[trigger] else_body@[i])
            },
            StmtKind::While { condition, body } => {
                &&& expr_resolvable(units, cur, condition)
                &&& forall|i: int| 0 <= i < body@.len() ==> stmt_resolvable(units, cur, #[trigger] body@[i])
            },
            StmtKind::For { initializer, condition, update, body } => {
                &&& stmt_resolvable(units, cur, *initializer)
                &&& expr_resolvable(units, cur, condition)
                &&& stmt_resolvable(units, cur, *update)
                &&& forall|i: int| 0 <= i < body@.len() ==> stmt_resolvable(units, cur, #[trigger] body@[i])
            },
            StmtKind::ForEach { index, element, value, body, .. } => {
                &&& (index matches Some(x) ==> exists|y: IterationBinding| resolves_binding(units, cur, x, y))
                &&& (exists|y: IterationBinding| resolves_binding(units, cur, element, y))
                &&& expr_resolvable(units, cur, value)
                &&& forall|i: int| 0 <= i < body@.len() ==> stmt_resolvable(units, cur, #[trigger] body@[i])
            },
            StmtKind::Break => true,
            StmtKind::Continue => true,
        },
{
    match a.kind {
        StmtKind::Block(body) => {
            let out = b.kind->Block_0;
            assert forall|i: int| 0 <= i < body@.len() implies stmt_resolvable(units, cur, #[trigger] body@[i]) by {
                assert(resolves_stmt(units, cur, body@[i], out@[i]));
            }
        },
        StmtKind::Match { value, arms } => {
            if let StmtKind::Match { value: v, arms: out } = b.kind {
                assert(resolves_expr(units, cur, value, v));
                assert forall|i: int| 0 <= i < arms@.len() implies arm_resolvable(units, cur, #[trigger] arms@[i]) by {
                    assert(resolves_arm_variant(units, cur, arms@[i].variant@, out@[i].variant@));
                    assert forall|j: int| 0 <= j < arms@[i].body@.len() implies stmt_resolvable(units, cur, #[trigger] arms@[i].body@[j]) by {
                        assert(resolves_stmt(units, cur, arms@[i].body@[j], out@[i].body@[j]));
                    }
                }
            }
        },
        StmtKind::Binding { type_spec, value, .. } => {
            if let StmtKind::Binding { type_spec: t, value: v, .. } = b.kind {
                assert(resolves_expr(units, cur, value, v));
                if type_spec is Explicit {
                    assert(resolves_type(units, cur, false, type_spec->Explicit_0, t->Explicit_0));
                }
            }
        },
        StmtKind::Assignment { target, value } => {
            if let StmtKind::Assignment { target: t, value: v } = b.kind {
                assert(resolves_expr(units, cur, value, v));
                assert forall|i: int| 0 <= i < target.projections@.len() implies expr_resolvable(units, cur, (#[trigger] target.projections@[i])->index) by {
                    assert(resolves_expr(units, cur, target.projections@[i]->index, t.projections@[i]->index));
                }
            }
        },
        StmtKind::Print { value } => {
            assert(resolves_expr(units, cur, value, b.kind->Print_value));
        },
        StmtKind::Call { value } => {
            assert(resolves_expr(units, cur, value, b.kind->Call_value));
        },
        StmtKind::Return { value } => {
            if value is Some {
                assert(resolves_expr(units, cur, value->Some_0, b.kind->Return_value->Some_0));
            }
        },
        StmtKind::If { condition, then_body, else_body } => {
            if let StmtKind::If { condition: c, then_body: t, else_body: e } = b.kind {
                assert(resolves_expr(units, cur, condition, c));
                assert forall|i: int| 0 <= i < then_body@.len() implies stmt_resolvable(units, cur, #[trigger] then_body@[i]) by {
                    assert(resolves_stmt(units, cur, then_body@[i], t@[i]));
                }
                assert forall|i: int| 0 <= i < else_body@.len() implies stmt_resolvable(units, cur, #[trigger] else_body@[i]) by {
                    assert(resolves_stmt(units, cur, else_body@[i], e@[i]));
                }
            }
        },
        StmtKind::While { condition, body } => {
            if let StmtKind::While { condition: c, body: out } = b.kind {
                assert(resolves_expr(units, cur, condition, c));
                assert forall|i: int| 0 <= i < body@.len() implies stmt_resolvable(units, cur, #[trigger] body@[i]) by {
                    assert(resolves_stmt(units, cur, body@[i], out@[i]));
                }
            }
        },
        StmtKind::For { initializer, condition, update, body } => {
            if let StmtKind::For { initializer: i2, condition: c, update: u, body: out } = b.kind {
                assert(resolves_stmt(units, cur, *initializer, *i2));
                assert(resolves_expr(units, cur, condition, c));
                assert(resolves_stmt(units, cur, *update, *u));
                assert forall|i: int| 0 <= i < body@.len() implies stmt_resolvable(units, cur, #[trigger] body@[i]) by {
                    assert(resolves_stmt(units, cur, body@[i], out@[i]));
                }
            }
        },
        StmtKind::ForEach { index, element, value, body, .. } => {
            if let StmtKind::ForEach { index: i2, element: e2, value: v, body: out, .. } = b.kind {
                assert(resolves_binding(units, cur, element, e2));
                if index is Some {
                    assert(resolves_binding(units, cur, index->Some_0, i2->Some_0));
                }
                assert(resolves_expr(units, cur, value, v));
                assert forall|i: int| 0 <= i < body@.len() implies stmt_resolvable(units, cur, #[trigger] body@[i]) by {
                    assert(resolves_stmt(units, cur, body@[i], out@[i]));
                }
            }
        },
        StmtKind::Break => {},
        StmtKind::Continue => {},
    }
}

/// The names visible from one unit while its items are resolved.
struct Resolver<'a> {
    names: &'a Vec<Names>,
    imports: &'a Vec<(String, usize)>,
    current: usize,
    units: Ghost<Seq<Unit>>,
}

impl<'a> Resolver<'a> {
    /// The tables list what each unit defines, the aliases are those of the
    /// current unit, and every alias names a unit.
    spec fn valid(&self) -> bool {
        &&& self.current < self.names@.len()
        &&& self.names@.len() == self.units@.len()
        &&& forall|u: int| 0 <= u < self.names@.len() ==> tables_match(#[trigger] self.names@[u], u, self.units@[u])
        &&& self.imports@ == self.units@[self.current as int].imports@
        &&& imports_valid(self.imports@, self.names@.len() as int)
    }

    /// Resolves a reference of namespace `kind`.
    fn name(&self, name: &str, span: Span, kind: DefinitionKind, public: bool) -> (r: Result<String, Diagnostic>)
        requires
            self.valid(),
        ensures
            name_resolution(self.units@, self.current as int, name@, kind, public) matches Ok(n)
                ==> r matches Ok(s) && s@ == n,
            name_resolution(self.units@, self.current as int, name@, kind, public) matches Err(m)
                ==> r matches Err(e) && e.message@ == m && e.span == Some(span),
    {
        match split_first_path(name) {
            Some((alias, member)) => {
                proof {
                    lemma_alias_in_range(self.imports@, alias@, self.names@.len() as int);
                }
                match find_alias(self.imports, alias) {
                    None => {
                        let mut message = String::from_str("unknown import alias `");
                        message.append(alias);
                        message.append("`");
                        Err(Diagnostic::new(message, span))
                    },
                    Some(target) => resolve_member(&self.names[target], kind, member, name, true, public, span),
                }
            },
            None => resolve_member(&self.names[self.current], kind, name, name, false, public, span),
        }
    }

    /// Resolves the type or `Enum::Variant` path of a constructor.
    fn constructor_name(&self, path: &str, span: Span) -> (r: Result<String, Diagnostic>)
        requires
            self.valid(),
        ensures
            constructor_resolution(self.units@, self.current as int, path@) matches Ok(n)
                ==> r matches Ok(s) && s@ == n,
            constructor_resolution(self.units@, self.current as int, path@) matches Err(m)
                ==> r matches Err(e) && e.message@ == m && e.span == Some(span),
    {
        if let Some((prefix, variant)) = split_last_path(path) {
            let qualified = split_first_path(prefix).is_some();
            proof {
                let names = self.names@[self.current as int];
                assert(table(names, DefinitionKind::Type) == names.types@);
                assert(tables_match(names, self.current as int, self.units@[self.current as int]));
                assert(found_view(lookup(table(names, DefinitionKind::Type), prefix@))
                    == unit_symbol(self.current as int, self.units@[self.current as int], DefinitionKind::Type, prefix@));
            }
            let is_enum = match find_symbol(&self.names[self.current].types, prefix) {
                Some(i) => self.names[self.current].types[i].1.is_enum,
                None => false,
            };
            if qualified || is_enum {
                let resolved = self.name(prefix, span, DefinitionKind::Type, false)?;
                let mut r = resolved;
                r.append("::");
                r.append(variant);
                return Ok(r);
            }
        }
        self.name(path, span, DefinitionKind::Type, false)
    }

    /// Whether the current unit defines a constant named `name`.
    fn is_constant(&self, name: &str) -> (r: bool)
        requires
            self.valid(),
        ensures
            r == names_constant(self.units@, self.current as int, name@),
    {
        proof {
            let names = self.names@[self.current as int];
            assert(table(names, DefinitionKind::Constant) == names.constants@);
            assert(tables_match(names, self.current as int, self.units@[self.current as int]));
            assert(found_view(lookup(table(names, DefinitionKind::Constant), name@))
                == unit_symbol(self.current as int, self.units@[self.current as int], DefinitionKind::Constant, name@));
        }
        find_symbol(&self.names[self.current].constants, name).is_some()
    }

    /// Refuses a local binding named like a constant or an import alias.
    fn binding(&self, name: &str, span: Span) -> (r: Result<(), Diagnostic>)
        requires
            self.valid(),
        ensures
            r is Ok <==> !names_constant(self.units@, self.current as int, name@)
                && !has_alias(self.imports@, name@),
            r matches Err(e) ==> e.span == Some(span) && e.message@ == (
                if names_constant(self.units@, self.current as int, name@) {
                    "binding "@ + name@ + " conflicts with a constant"@
                } else {
                    "binding `"@ + name@ + "` conflicts with an import alias"@
                }),
    {
        if self.is_constant(name) {
            let mut message = String::from_str("binding ");
            message.append(name);
            message.append(" conflicts with a constant");
            return Err(Diagnostic::new(message, span));
        }
        proof {
            lemma_alias_target_some(self.imports@, name@);
        }
        if find_alias(self.imports, name).is_some() {
            let mut message = String::from_str("binding `");
            message.append(name);
            message.append("` conflicts with an import alias");
            return Err(Diagnostic::new(message, span));
        }
        Ok(())
    }

    /// Resolves the defined type names in a written type; `public` marks a
    /// public signature, where private types are refused.
    fn ty(&self, ty: TypeRef, public: bool) -> (r: Result<TypeRef, Diagnostic>)
        requires
            self.valid(),
        ensures
            r matches Ok(t) ==> resolves_type(self.units@, self.current as int, public, ty, t),
            type_resolvable(self.units@, self.current as int, public, ty) ==> r is Ok,
        decreases ty,
    {
        let ghost whole = ty;
        let ghost w = choose|b: TypeRef| resolves_type(self.units@, self.current as int, public, whole, b);
        let span = ty.span;
        match ty.kind {
            TypeRefKind::Named(name) => {
                if Type::from_name(name.as_str()).is_none() && !same_text(name.as_str(), "infer") {
                    let resolved = self.name(name.as_str(), span, DefinitionKind::Type, public)?;
                    Ok(TypeRef { kind: TypeRefKind::Named(resolved), span })
                } else {
                    Ok(TypeRef { kind: TypeRefKind::Named(name), span })
                }
            },
            TypeRefKind::Array { element, length } => {
                proof {
                    if type_resolvable(self.units@, self.current as int, public, whole) {
                        if let TypeRefKind::Array { element: e, .. } = w.kind {
                            assert(resolves_type(self.units@, self.current as int, public, *element, *e));
                        }
                    }
                }
                let element = self.ty(*element, public)?;
                Ok(TypeRef { kind: TypeRefKind::Array { element: Box::new(element), length }, span })
            },
            TypeRefKind::ArrayConstant { element, constant } => {
                Ok(TypeRef { kind: TypeRefKind::ArrayConstant { element, constant }, span })
            },
        }
    }

    /// Resolves an optional written type in a local binding.
    fn spec(&self, spec: TypeSpec) -> (r: Result<TypeSpec, Diagnostic>)
        requires
            self.valid(),
        ensures
            r matches Ok(t) ==> resolves_spec(self.units@, self.current as int, spec, t),
            (spec matches TypeSpec::Explicit(t) ==> type_resolvable(self.units@, self.current as int, false, t)) ==> r is Ok,
    {
        match spec {
            TypeSpec::Explicit(ty) => Ok(TypeSpec::Explicit(self.ty(ty, false)?)),
            TypeSpec::Infer => Ok(TypeSpec::Infer),
        }
    }

    /// Resolves every expression of a list, in order.
    #[verifier::loop_isolation(false)]
    fn exprs(&self, values: Vec<Expr>) -> (r: Result<Vec<Expr>, Diagnostic>)
        requires
            self.valid(),
        ensures
            r matches Ok(out) ==> out@.len() == values@.len() && forall|i: int|
                0 <= i < values@.len() ==> resolves_expr(self.units@, self.current as int, #[trigger] values@[i], out@[i]),
            (forall|i: int| 0 <= i < values@.len() ==> expr_resolvable(self.units@, self.current as int, #[trigger] values@[i]))
                ==> r is Ok,
        decreases values,
    {
        let ghost orig = values@;
        let mut rest = values;
        let mut out: Vec<Expr> = Vec::new();
        while rest.len() > 0
            invariant
                out@.len() + rest@.len() == orig.len(),
                rest@ == orig.skip(out@.len() as int),
                forall|i: int| 0 <= i < out@.len() ==> resolves_expr(self.units@, self.current as int, #[trigger] orig[i], out@[i]),
            decreases rest@.len(),
        {
            let ghost k = out@.len() as int;
            let item = rest.remove(0);
            assert(item == orig[k]);
            assert(rest@ =~= orig.skip(k + 1));
            out.push(self.expr(item)?);
        }
        Ok(out)
    }

    /// Resolves the values of constructor fields.
    #[verifier::loop_isolation(false)]
    fn field_values(&self, fields: Vec<FieldValue>) -> (r: Result<Vec<FieldValue>, Diagnostic>)
        requires
            self.valid(),
        ensures
            r matches Ok(out) ==> out@.len() == fields@.len() && forall|i: int|
                0 <= i < fields@.len() ==> out@[i].name@ == (#[trigger] fields@[i]).name@ && resolves_expr(
                    self.units@,
                    self.current as int,
                    fields@[i].value,
                    out@[i].value,
                ),
            (forall|i: int| 0 <= i < fields@.len() ==> expr_resolvable(self.units@, self.current as int, #[trigger] fields@[i].value))
                ==> r is Ok,
        decreases fields,
    {
        let ghost orig = fields@;
        let mut rest = fields;
        let mut out: Vec<FieldValue> = Vec::new();
        while rest.len() > 0
            invariant
                out@.len() + rest@.len() == orig.len(),
                rest@ == orig.skip(out@.len() as int),
                forall|i: int| 0 <= i < out@.len() ==> out@[i].name@ == (#[trigger] orig[i]).name@ && resolves_expr(
                    self.units@,
                    self.current as int,
                    orig[i].value,
                    out@[i].value,
                ),
            decreases rest@.len(),
        {
            let ghost k = out@.len() as int;
            let field = rest.remove(0);
            assert(field == orig[k]);
            assert(rest@ =~= orig.skip(k + 1));
            let value = self.expr(field.value)?;
            let ghost before = out@;
            out.push(FieldValue {
                generated: field.generated,
                name: field.name,
                name_span: field.name_span,
                value,
                span: field.span,
            });
            proof {
                assert forall|i: int| 0 <= i < out@.len() implies out@[i].name@ == (#[trigger] orig[i]).name@ && resolves_expr(
                    self.units@,
                    self.current as int,
                    orig[i].value,
                    out@[i].value,
                ) by {
                    if i < k {
                        assert(out@[i] == before[i]);
                    }
                }
            }
        }
        Ok(out)
    }

    /// Resolves the function, constant and type references of an expression.
    #[verifier::loop_isolation(false)]
    fn expr(&self, expr: Expr) -> (r: Result<Expr, Diagnostic>)
        requires
            self.valid(),
        ensures
            r matches Ok(e) ==> resolves_expr(self.units@, self.current as int, expr, e),
            expr_resolvable(self.units@, self.current as int, expr) ==> r is Ok,
        decreases expr,
    {
        let ghost units = self.units@;
        let ghost cur = self.current as int;
        let ghost whole = expr;
        let ghost ok = expr_resolvable(units, cur, whole);
        let ghost w = choose|b: Expr| resolves_expr(units, cur, whole, b);
        let span = expr.span;
        let kind = match expr.kind {
            ExprKind::Call { name, name_span, arguments } => {
                proof {
                    reveal_strlit("byte_len");
                    if ok {
                        if let ExprKind::Call { arguments: args, .. } = w.kind {
                            assert forall|i: int| 0 <= i < arguments@.len() implies expr_resolvable(units, cur, #[trigger] arguments@[i]) by {
                                assert(resolves_expr(units, cur, arguments@[i], args@[i]));
                            }
                        }
                    }
                }
                let name = if same_text(name.as_str(), "byte_len") {
                    name
                } else {
                    self.name(name.as_str(), name_span, DefinitionKind::Function, false)?
                };
                let ghost given = arguments@;
                let arguments = self.exprs(arguments)?;
                assert(forall|i: int| 0 <= i < given.len()
                    ==> resolves_expr(self.units@, self.current as int, #[trigger] given[i], arguments@[i]));
                ExprKind::Call { name, name_span, arguments }
            },
            ExprKind::Construct { type_path, type_path_span, base, fields } => {
                proof {
                    if ok {
                        if let ExprKind::Construct { base: bb, fields: fs, .. } = w.kind {
                            if base is Some {
                                assert(resolves_expr(units, cur, *base->Some_0, *bb->Some_0));
                            }
                            assert forall|i: int| 0 <= i < fields@.len() implies expr_resolvable(units, cur, #[trigger] fields@[i].value) by {
                                assert(resolves_expr(units, cur, fields@[i].value, fs@[i].value));
                            }
                        }
                    }
                }
                let type_path = self.constructor_name(type_path.as_str(), type_path_span)?;
                let base = match base {
                    Some(b) => Some(Box::new(self.expr(*b)?)),
                    None => None,
                };
                let fields = self.field_values(fields)?;
                ExprKind::Construct { type_path, type_path_span, base, fields }
            },
            ExprKind::Convert { mode, target, value, syntax } => {
                proof {
                    if ok {
                        if let ExprKind::Convert { target: t, value: v, .. } = w.kind {
                            assert(resolves_type(units, cur, false, target, t));
                            assert(resolves_expr(units, cur, *value, *v));
                        }
                    }
                }
                let target = self.ty(target, false)?;
                let value = self.expr(*value)?;
                ExprKind::Convert { mode, target, value: Box::new(value), syntax }
            },
            ExprKind::Array(values) => {
                proof {
                    if ok {
                        if let ExprKind::Array(vs) = w.kind {
                            assert forall|i: int| 0 <= i < values@.len() implies expr_resolvable(units, cur, #[trigger] values@[i]) by {
                                assert(resolves_expr(units, cur, values@[i], vs@[i]));
                            }
                        }
                    }
                }
                ExprKind::Array(self.exprs(values)?)
            },
            ExprKind::Index { base, index } => {
                proof {
                    if ok {
                        if let ExprKind::Index { base: x, index: y } = w.kind {
                            assert(resolves_expr(units, cur, *base, *x));
                            assert(resolves_expr(units, cur, *index, *y));
                        }
                    }
                }
                let base = self.expr(*base)?;
                let index = self.expr(*index)?;
                ExprKind::Index { base: Box::new(base), index: Box::new(index) }
            },
            ExprKind::FieldAccess { base, field_name, field_name_span } => {
                proof {
                    if ok {
                        if let ExprKind::FieldAccess { base: x, .. } = w.kind {
                            assert(resolves_expr(units, cur, *base, *x));
                        }
                    }
                }
                ExprKind::FieldAccess { base: Box::new(self.expr(*base)?), field_name, field_name_span }
            },
            ExprKind::Unary { op, value } => {
                proof {
                    if ok {
                        if let ExprKind::Unary { value: v, .. } = w.kind {
                            assert(resolves_expr(units, cur, *value, *v));
                        }
                    }
                }
                ExprKind::Unary { op, value: Box::new(self.expr(*value)?) }
            },
            ExprKind::Logical { op, left, right } => {
                proof {
                    if ok {
                        if let ExprKind::Logical { left: l, right: r, .. } = w.kind {
                            assert(resolves_expr(units, cur, *left, *l));
                            assert(resolves_expr(units, cur, *right, *r));
                        }
                    }
                }
                let left = self.expr(*left)?;
                let right = self.expr(*right)?;
                ExprKind::Logical { op, left: Box::new(left), right: Box::new(right) }
            },
            ExprKind::Binary { op, left, right } => {
                proof {
                    if ok {
                        if let ExprKind::Binary { left: l, right: r, .. } = w.kind {
                            assert(resolves_expr(units, cur, *left, *l));
                            assert(resolves_expr(units, cur, *right, *r));
                        }
                    }
                }
                let left = self.expr(*left)?;
                let right = self.expr(*right)?;
                ExprKind::Binary { op, left: Box::new(left), right: Box::new(right) }
            },
            ExprKind::Variable(name) => {
                if split_first_path(name.as_str()).is_some() || self.is_constant(name.as_str()) {
                    ExprKind::Variable(self.name(name.as_str(), span, DefinitionKind::Constant, false)?)
                } else {
                    ExprKind::Variable(name)
                }
            },
            other => other,
        };
        Ok(Expr { kind, span })
    }

    /// Resolves every statement of a list, in order.
    #[verifier::loop_isolation(false)]
    fn statements(&self, body: Vec<Stmt>) -> (r: Result<Vec<Stmt>, Diagnostic>)
        requires
            self.valid(),
        ensures
            r matches Ok(out) ==> out@.len() == body@.len() && forall|i: int|
                0 <= i < body@.len() ==> resolves_stmt(self.units@, self.current as int, #[trigger] body@[i], out@[i]),
            (forall|i: int| 0 <= i < body@.len() ==> stmt_resolvable(self.units@, self.current as int, #[trigger] body@[i]))
                ==> r is Ok,
        decreases body,
    {
        let ghost orig = body@;
        let mut rest = body;
        let mut out: Vec<Stmt> = Vec::new();
        while rest.len() > 0
            invariant
                out@.len() + rest@.len() == orig.len(),
                rest@ == orig.skip(out@.len() as int),
                forall|i: int| 0 <= i < out@.len() ==> resolves_stmt(self.units@, self.current as int, #[trigger] orig[i], out@[i]),
            decreases rest@.len(),
        {
            let ghost k = out@.len() as int;
            let item = rest.remove(0);
            assert(item == orig[k]);
            assert(rest@ =~= orig.skip(k + 1));
            out.push(self.statement(item)?);
        }
        Ok(out)
    }

    /// Resolves the enum of each arm's `Enum::Variant`, checks its pattern
    /// bindings and resolves its body.
    #[verifier::loop_isolation(false)]
    fn arms(&self, arms: Vec<MatchArm>) -> (r: Result<Vec<MatchArm>, Diagnostic>)
        requires
            self.valid(),
        ensures
            r matches Ok(out) ==> out@.len() == arms@.len() && forall|i: int| 0 <= i < arms@.len() ==> {
                &&& resolves_arm_variant(self.units@, self.current as int, (#[trigger] arms@[i]).variant@, out@[i].variant@)
                &&& forall|f: int| 0 <= f < arms@[i].fields@.len() && arms@[i].fields@[f].binding@ != "_"@
                    ==> binding_allowed(self.units@, self.current as int, #[trigger] arms@[i].fields@[f].binding@)
                &&& out@[i].body@.len() == arms@[i].body@.len()
                &&& forall|j: int|
                    0 <= j < arms@[i].body@.len() ==> resolves_stmt(self.units@, self.current as int, #[trigger] arms@[i].body@[j], out@[i].body@[j])
            },
            (forall|i: int| 0 <= i < arms@.len() ==> arm_resolvable(self.units@, self.current as int, #[trigger] arms@[i])) ==> r is Ok,
        decreases arms,
    {
        let ghost orig = arms@;
        let mut rest = arms;
        let mut out: Vec<MatchArm> = Vec::new();
        while rest.len() > 0
            invariant
                out@.len() + rest@.len() == orig.len(),
                rest@ == orig.skip(out@.len() as int),
                forall|i: int| 0 <= i < out@.len() ==> {
                    &&& resolves_arm_variant(self.units@, self.current as int, (#[trigger] orig[i]).variant@, out@[i].variant@)
                    &&& forall|f: int| 0 <= f < orig[i].fields@.len() && orig[i].fields@[f].binding@ != "_"@
                        ==> binding_allowed(self.units@, self.current as int, #[trigger] orig[i].fields@[f].binding@)
                    &&& out@[i].body@.len() == orig[i].body@.len()
                    &&& forall|j: int|
                        0 <= j < orig[i].body@.len() ==> resolves_stmt(self.units@, self.current as int, #[trigger] orig[i].body@[j], out@[i].body@[j])
                },
            decreases rest@.len(),
        {
            let ghost k = out@.len() as int;
            let arm = rest.remove(0);
            assert(arm == orig[k]);
            assert(rest@ =~= orig.skip(k + 1));
            let variant = match split_last_path(arm.variant.as_str()) {
                Some((name, variant)) => {
                    let mut resolved = self.name(name, arm.variant_span, DefinitionKind::Type, false)?;
                    resolved.append("::");
                    resolved.append(variant);
                    resolved
                },
                None => {
                    return Err(Diagnostic::new(
                        String::from_str("a match arm requires Enum::Variant"),
                        arm.variant_span,
                    ));
                },
            };
            let mut f: usize = 0;
            while f < arm.fields.len()
                invariant
                    f <= arm.fields@.len(),
                    forall|g: int| 0 <= g < f && arm.fields@[g].binding@ != "_"@
                        ==> binding_allowed(self.units@, self.current as int, #[trigger] arm.fields@[g].binding@),
                decreases arm.fields@.len() - f,
            {
                proof {
                    reveal_strlit("_");
                }
                if !same_text(arm.fields[f].binding.as_str(), "_") {
                    self.binding(arm.fields[f].binding.as_str(), arm.fields[f].binding_span)?;
                }
                f = f + 1;
            }
            let body = self.statements(arm.body)?;
            let ghost before = out@;
            out.push(MatchArm { variant, variant_span: arm.variant_span, fields: arm.fields, body, span: arm.span });
            proof {
                assert forall|i: int| 0 <= i < out@.len() implies {
                    &&& resolves_arm_variant(self.units@, self.current as int, (#[trigger] orig[i]).variant@, out@[i].variant@)
                    &&& forall|f: int| 0 <= f < orig[i].fields@.len() && orig[i].fields@[f].binding@ != "_"@
                        ==> binding_allowed(self.units@, self.current as int, #[trigger] orig[i].fields@[f].binding@)
                    &&& out@[i].body@.len() == orig[i].body@.len()
                    &&& forall|j: int|
                        0 <= j < orig[i].body@.len() ==> resolves_stmt(self.units@, self.current as int, #[trigger] orig[i].body@[j], out@[i].body@[j])
                } by {
                    if i < k {
                        assert(out@[i] == before[i]);
                    }
                }
            }
        }
        Ok(out)
    }

    /// Resolves the index expressions of an assignment target.
    #[verifier::loop_isolation(false)]
    fn projections(&self, projections: Vec<AssignmentProjection>) -> (r: Result<Vec<AssignmentProjection>, Diagnostic>)
        requires
            self.valid(),
        ensures
            r matches Ok(out) ==> out@.len() == projections@.len() && forall|i: int|
                0 <= i < projections@.len() ==> resolves_expr(self.units@, self.current as int, (#[trigger] projections@[i])->index, out@[i]->index),
            (forall|i: int| 0 <= i < projections@.len() ==> expr_resolvable(self.units@, self.current as int, (#[trigger] projections@[i])->index))
                ==> r is Ok,
    {
        let ghost orig = projections@;
        let mut rest = projections;
        let mut out: Vec<AssignmentProjection> = Vec::new();
        while rest.len() > 0
            invariant
                out@.len() + rest@.len() == orig.len(),
                rest@ == orig.skip(out@.len() as int),
                forall|i: int| 0 <= i < out@.len() ==> resolves_expr(self.units@, self.current as int, (#[trigger] orig[i])->index, out@[i]->index),
            decreases rest@.len(),
        {
            let ghost k = out@.len() as int;
            let item = rest.remove(0);
            assert(item == orig[k]);
            assert(rest@ =~= orig.skip(k + 1));
            match item {
                AssignmentProjection::Index { index, span } => {
                    let index = self.expr(index)?;
                    out.push(AssignmentProjection::Index { index, span });
                },
            }
        }
        Ok(out)
    }

    /// Checks an iteration binding's name and resolves its written type.
    fn iteration_binding(&self, binding: IterationBinding) -> (r: Result<IterationBinding, Diagnostic>)
        requires
            self.valid(),
        ensures
            r matches Ok(b) ==> resolves_binding(self.units@, self.current as int, binding, b),
            (exists|b: IterationBinding| resolves_binding(self.units@, self.current as int, binding, b)) ==> r is Ok,
    {
        proof {
            let units = self.units@;
            let cur = self.current as int;
            if exists|b: IterationBinding| resolves_binding(units, cur, binding, b) {
                let b = choose|b: IterationBinding| resolves_binding(units, cur, binding, b);
                if binding.type_spec is Explicit {
                    assert(resolves_type(units, cur, false, binding.type_spec->Explicit_0, b.type_spec->Explicit_0));
                }
            }
        }
        self.binding(binding.name.as_str(), binding.span)?;
        let type_spec = self.spec(binding.type_spec)?;
        Ok(IterationBinding { mutable: binding.mutable, name: binding.name, type_spec, span: binding.span })
    }

    /// Resolves the references of a statement and checks its bindings.
    #[verifier::loop_isolation(false)]
    fn statement(&self, statement: Stmt) -> (r: Result<Stmt, Diagnostic>)
        requires
            self.valid(),
        ensures
            r matches Ok(s) ==> resolves_stmt(self.units@, self.current as int, statement, s),
            stmt_resolvable(self.units@, self.current as int, statement) ==> r is Ok,
        decreases statement,
    {
        let ghost units = self.units@;
        let ghost cur = self.current as int;
        let ghost whole = statement;
        let ghost ok = stmt_resolvable(units, cur, whole);
        let ghost w = choose|b: Stmt| resolves_stmt(units, cur, whole, b);
        proof {
            if ok {
                lemma_stmt_parts_resolvable(units, cur, whole, w);
            }
        }
        let span = statement.span;
        let kind = match statement.kind {
            StmtKind::Block(body) => StmtKind::Block(self.statements(body)?),
            StmtKind::Match { value, arms } => {
                let value = self.expr(value)?;
                let arms = self.arms(arms)?;
                StmtKind::Match { value, arms }
            },
            StmtKind::Binding { mutable, name, type_spec, value } => {
                self.binding(name.as_str(), span)?;
                let type_spec = self.spec(type_spec)?;
                let value = self.expr(value)?;
                StmtKind::Binding { mutable, name, type_spec, value }
            },
            StmtKind::Assignment { target, value } => {
                if self.is_constant(target.name.as_str()) {
                    return Err(Diagnostic::new(String::from_str("cannot assign to a constant"), target.name_span));
                }
                let projections = self.projections(target.projections)?;
                let value = self.expr(value)?;
                StmtKind::Assignment {
                    target: AssignmentTarget {
                        name: target.name,
                        name_span: target.name_span,
                        projections,
                        span: target.span,
                    },
                    value,
                }
            },
            StmtKind::Print { value } => StmtKind::Print { value: self.expr(value)? },
            StmtKind::Call { value } => StmtKind::Call { value: self.expr(value)? },
            StmtKind::Return { value } => StmtKind::Return {
                value: match value {
                    Some(v) => Some(self.expr(v)?),
                    None => None,
                },
            },
            StmtKind::If { condition, then_body, else_body } => {
                let condition = self.expr(condition)?;
                let then_body = self.statements(then_body)?;
                let else_body = self.statements(else_body)?;
                StmtKind::If { condition, then_body, else_body }
            },
            StmtKind::While { condition, body } => {
                let condition = self.expr(condition)?;
                let body = self.statements(body)?;
                StmtKind::While { condition, body }
            },
            StmtKind::For { initializer, condition, update, body } => {
                let initializer = self.statement(*initializer)?;
                let condition = self.expr(condition)?;
                let update = self.statement(*update)?;
                let body = self.statements(body)?;
                StmtKind::For { initializer: Box::new(initializer), condition, update: Box::new(update), body }
            },
            StmtKind::ForEach { index, element, value, body, header_span } => {
                let index = match index {
                    Some(b) => Some(self.iteration_binding(b)?),
                    None => None,
                };
                let element = self.iteration_binding(element)?;
                let value = self.expr(value)?;
                let body = self.statements(body)?;
                StmtKind::ForEach { index, element, value, body, header_span }
            },
            StmtKind::Break => StmtKind::Break,
            StmtKind::Continue => StmtKind::Continue,
        };
        Ok(Stmt { kind, span })
    }
}


impl<'a> Resolver<'a> {
    /// Renames a definition to its program-wide name and resolves what it
    /// refers to; a statement is resolved as it stands.
    #[verifier::loop_isolation(false)]
    fn item(&self, item: Item, id: SourceId, exports: &Vec<(String, Span)>) -> (r: Result<Item, Diagnostic>)
        requires
            self.valid(),
            id == self.units@[self.current as int].id,
            exports@ == self.units@[self.current as int].exports@,
        ensures
            r matches Ok(out) ==> resolves_item(self.units@, self.current as int, item, out),
            item_resolvable(self.units@, self.current as int, item) ==> r is Ok,
    {
        let ghost units = self.units@;
        let ghost cur = self.current as int;
        let ghost whole = item;
        let ghost ok = item_resolvable(units, cur, whole);
        let ghost w = choose|b: Item| resolves_item(units, cur, whole, b);
        let unit_index = self.current;
        match item {
            Item::ConstantDefinition(d) => {
                proof {
                    if ok {
                        let e = w->ConstantDefinition_0;
                        assert(resolves_type(units, cur, exported(units[cur].exports@, d.name_span), d.type_ref, e.type_ref));
                        assert(resolves_expr(units, cur, d.value, e.value));
                    }
                }
                let public = is_exported(exports, d.name_span);
                let name = global_name_text(unit_index, id, d.name.as_str(), DefinitionKind::Constant);
                let type_ref = self.ty(d.type_ref, public)?;
                let value = self.expr(d.value)?;
                Ok(Item::ConstantDefinition(ConstantDefinition {
                    name,
                    name_span: d.name_span,
                    type_ref,
                    value,
                    span: d.span,
                }))
            },
            Item::TypeDefinition(d) => {
                let ghost e = w->TypeDefinition_0;
                proof {
                    if ok {
                        assert(resolves_fields(units, cur, exported(units[cur].exports@, d.name_span), true, d.fields@, e.fields@));
                    }
                }
                let public = is_exported(exports, d.name_span);
                let name = global_name_text(unit_index, id, d.name.as_str(), DefinitionKind::Type);
                let variants = match d.variants {
                    Some(variants) => {
                        let ghost orig = variants@;
                        let ghost vw = e.variants->Some_0@;
                        let mut rest = variants;
                        let mut out: Vec<VariantDefinition> = Vec::new();
                        while rest.len() > 0
                            invariant
                                self.valid(),
                                units == self.units@,
                                cur == self.current as int,
                                public == exported(units[cur].exports@, d.name_span),
                                ok ==> vw.len() == orig.len() && forall|i: int| 0 <= i < orig.len() ==> resolves_fields(
                                    units,
                                    cur,
                                    public,
                                    false,
                                    (#[trigger] orig[i]).fields@,
                                    vw[i].fields@,
                                ),
                                out@.len() + rest@.len() == orig.len(),
                                rest@ == orig.skip(out@.len() as int),
                                forall|i: int| 0 <= i < out@.len() ==> out@[i].name@ == (#[trigger] orig[i]).name@
                                    && resolves_fields(self.units@, self.current as int, public, false, orig[i].fields@, out@[i].fields@),
                            decreases rest@.len(),
                        {
                            let ghost k = out@.len() as int;
                            let variant = rest.remove(0);
                            assert(variant == orig[k]);
                            assert(rest@ =~= orig.skip(k + 1));
                            proof {
                                if ok {
                                    assert(resolves_fields(units, cur, public, false, orig[k].fields@, vw[k].fields@));
                                }
                            }
                            let fields = self.fields(variant.fields, public, false)?;
                            let ghost before = out@;
                            out.push(VariantDefinition {
                                name: variant.name,
                                name_span: variant.name_span,
                                fields,
                                span: variant.span,
                            });
                            proof {
                                assert forall|i: int| 0 <= i < out@.len() implies out@[i].name@ == (#[trigger] orig[i]).name@
                                    && resolves_fields(self.units@, self.current as int, public, false, orig[i].fields@, out@[i].fields@) by {
                                    if i < k {
                                        assert(out@[i] == before[i]);
                                    }
                                }
                            }
                        }
                        Some(out)
                    },
                    None => None,
                };
                let fields = self.fields(d.fields, public, true)?;
                Ok(Item::TypeDefinition(TypeDefinition { variants, name, name_span: d.name_span, fields, span: d.span }))
            },
            Item::FunctionDefinition(d) => {
                let ghost e = w->FunctionDefinition_0;
                let public = is_exported(exports, d.name_span);
                let name = global_name_text(unit_index, id, d.name.as_str(), DefinitionKind::Function);
                let ghost orig = d.parameters@;
                let ghost pw = e.parameters@;
                proof {
                    if ok {
                        assert forall|i: int| 0 <= i < d.body@.len() implies stmt_resolvable(units, cur, #[trigger] d.body@[i]) by {
                            assert(resolves_stmt(units, cur, d.body@[i], e.body@[i]));
                        }
                        if d.return_type is Value {
                            assert(resolves_type(units, cur, public, d.return_type->Value_0, e.return_type->Value_0));
                        }
                    }
                }
                let mut rest = d.parameters;
                let mut parameters: Vec<Parameter> = Vec::new();
                while rest.len() > 0
                    invariant
                        self.valid(),
                        units == self.units@,
                        cur == self.current as int,
                        public == exported(units[cur].exports@, d.name_span),
                        ok ==> pw.len() == orig.len() && forall|i: int| 0 <= i < orig.len() ==> binding_allowed(
                            units,
                            cur,
                            (#[trigger] orig[i]).name@,
                        ) && resolves_type(units, cur, public, orig[i].type_ref, pw[i].type_ref),
                        parameters@.len() + rest@.len() == orig.len(),
                        rest@ == orig.skip(parameters@.len() as int),
                        forall|i: int| 0 <= i < parameters@.len() ==> parameters@[i].name@ == (#[trigger] orig[i]).name@
                            && binding_allowed(self.units@, self.current as int, orig[i].name@)
                            && resolves_type(self.units@, self.current as int, public, orig[i].type_ref, parameters@[i].type_ref),
                    decreases rest@.len(),
                {
                    let ghost k = parameters@.len() as int;
                    let p = rest.remove(0);
                    assert(p == orig[k]);
                    assert(rest@ =~= orig.skip(k + 1));
                    proof {
                        if ok {
                            assert(resolves_type(units, cur, public, orig[k].type_ref, pw[k].type_ref));
                        }
                    }
                    self.binding(p.name.as_str(), p.name_span)?;
                    let type_ref = self.ty(p.type_ref, public)?;
                    let ghost before = parameters@;
                    parameters.push(Parameter { name: p.name, name_span: p.name_span, type_ref, span: p.span });
                    proof {
                        assert forall|i: int| 0 <= i < parameters@.len() implies parameters@[i].name@ == (#[trigger] orig[i]).name@
                            && binding_allowed(self.units@, self.current as int, orig[i].name@)
                            && resolves_type(self.units@, self.current as int, public, orig[i].type_ref, parameters@[i].type_ref) by {
                            if i < k {
                                assert(parameters@[i] == before[i]);
                            }
                        }
                    }
                }
                let return_type = match d.return_type {
                    ReturnTypeRef::Void(s) => ReturnTypeRef::Void(s),
                    ReturnTypeRef::Value(ty) => ReturnTypeRef::Value(self.ty(ty, public)?),
                };
                let body = self.statements(d.body)?;
                Ok(Item::FunctionDefinition(FunctionDefinition {
                    generic_parameters: d.generic_parameters,
                    name,
                    name_span: d.name_span,
                    parameters,
                    return_type,
                    body,
                    span: d.span,
                }))
            },
            Item::Statement(statement) => {
                proof {
                    if ok {
                        assert(resolves_stmt(units, cur, statement, w->Statement_0));
                    }
                }
                Ok(Item::Statement(self.statement(statement)?))
            },
        }
    }

    /// Resolves the types of fields and, where `defaults` is set, their
    /// default values.
    fn fields(&self, fields: Vec<FieldDefinition>, public: bool, defaults: bool) -> (r: Result<
        Vec<FieldDefinition>,
        Diagnostic,
    >)
        requires
            self.valid(),
        ensures
            r matches Ok(out) ==> resolves_fields(self.units@, self.current as int, public, defaults, fields@, out@),
            (exists|b: Seq<FieldDefinition>| resolves_fields(self.units@, self.current as int, public, defaults, fields@, b))
                ==> r is Ok,
    {
        let ghost orig = fields@;
        let ghost ok = exists|b: Seq<FieldDefinition>| resolves_fields(self.units@, self.current as int, public, defaults, orig, b);
        let ghost wf = choose|b: Seq<FieldDefinition>| resolves_fields(self.units@, self.current as int, public, defaults, orig, b);
        let mut rest = fields;
        let mut out: Vec<FieldDefinition> = Vec::new();
        while rest.len() > 0
            invariant
                self.valid(),
                out@.len() + rest@.len() == orig.len(),
                rest@ == orig.skip(out@.len() as int),
                resolves_fields(self.units@, self.current as int, public, defaults, orig.take(out@.len() as int), out@),
                ok ==> resolves_fields(self.units@, self.current as int, public, defaults, orig, wf),
                orig == fields@,
                ok == exists|b: Seq<FieldDefinition>| resolves_fields(self.units@, self.current as int, public, defaults, orig, b),
            decreases rest@.len(),
        {
            let ghost k = out@.len() as int;
            let field = rest.remove(0);
            assert(field == orig[k]);
            assert(rest@ =~= orig.skip(k + 1));
            proof {
                if ok {
                    assert(resolves_type(self.units@, self.current as int, public, orig[k].type_ref, wf[k].type_ref));
                    if defaults && orig[k].default is Some {
                        assert(resolves_expr(self.units@, self.current as int, orig[k].default->Some_0, wf[k].default->Some_0));
                    }
                }
            }
            let type_ref = self.ty(field.type_ref, public)?;
            let default = match field.default {
                Some(v) => if defaults { Some(self.expr(v)?) } else { Some(v) },
                None => None,
            };
            let ghost before = out@;
            out.push(FieldDefinition { name: field.name, name_span: field.name_span, type_ref, default, span: field.span });
            proof {
                let a = orig.take(k + 1);
                assert forall|i: int| 0 <= i < a.len() implies {
                    &&& out@[i].name@ == (#[trigger] a[i]).name@
                    &&& resolves_type(self.units@, self.current as int, public, a[i].type_ref, out@[i].type_ref)
                    &&& if defaults {
                        match a[i].default {
                            Some(x) => (out@[i].default matches Some(y) && resolves_expr(self.units@, self.current as int, x, y)),
                            None => out@[i].default is None,
                        }
                    } else {
                        out@[i].default == a[i].default
                    }
                } by {
                    if i < k {
                        assert(out@[i] == before[i]);
                        assert(a[i] == orig.take(k)[i]);
                    }
                }
            }
        }
        assert(orig.take(orig.len() as int) =~= orig);
        Ok(out)
    }
}

/// Whether the unit exports the definition whose name lies at `span`.
fn is_exported(exports: &Vec<(String, Span)>, span: Span) -> (r: bool)
    ensures
        r == exists|i: int| 0 <= i < exports@.len() && (#[trigger] exports@[i]).1 == span,
{
    let mut i: usize = 0;
    while i < exports.len()
        invariant
            i <= exports@.len(),
            forall|j: int| 0 <= j < i ==> (#[trigger] exports@[j]).1 != span,
        decreases exports@.len() - i,
    {
        if exports[i].1 == span {
            return true;
        }
        i = i + 1;
    }
    false
}

/// The program-wide name of a definition.
fn global_name_text(unit_index: usize, id: SourceId, name: &str, kind: DefinitionKind) -> (r: String)
    ensures
        r@ == global_name(unit_index as int, id, name@, kind),
{
    if unit_index == 0 && kind == DefinitionKind::Function && same_text(name, "main") {
        return String::from_str(name);
    }
    let mut r = String::from_str("module_");
    let digits = decimal_text(id.index() as u64);
    r.append(digits.as_str());
    r.append("_");
    r.append(name);
    r
}

/// The name, name range and kind of a definition.
fn definition_parts(item: &Item) -> (r: Option<(&str, Span, DefinitionKind)>)
    ensures
        definition_of(*item) matches Some((name, span, kind)) ==> r matches Some((n, s, k)) && n@ == name
            && s == span && k == kind,
        definition_of(*item) is None ==> r is None,
{
    match item {
        Item::FunctionDefinition(d) => Some((d.name.as_str(), d.name_span, DefinitionKind::Function)),
        Item::TypeDefinition(d) => Some((d.name.as_str(), d.name_span, DefinitionKind::Type)),
        Item::ConstantDefinition(d) => Some((d.name.as_str(), d.name_span, DefinitionKind::Constant)),
        Item::Statement(_) => None,
    }
}

/// Whether one of the first `k` items defines `name` in the namespace `kind`.
fn defined_earlier(items: &Vec<Item>, k: usize, name: &str, kind: DefinitionKind) -> (r: bool)
    requires
        k <= items@.len(),
    ensures
        r == defined_before(items@, k as int, name@, kind),
{
    let mut j: usize = 0;
    while j < k
        invariant
            k <= items@.len(),
            j <= k,
            forall|i: int| 0 <= i < j ==> !#[trigger] defines_as(items@[i], name@, kind),
        decreases k - j,
    {
        if let Some((n, _, d)) = definition_parts(&items[j]) {
            if d == kind && same_text(n, name) {
                assert(defines_as(items@[j as int], name@, kind));
                return true;
            }
        }
        j = j + 1;
    }
    false
}

/// The problem with the definition at `k` of `unit`, if any.
fn check_definition(unit: &Unit, k: usize) -> (r: Option<Diagnostic>)
    requires
        k < unit.program.items@.len(),
    ensures
        definition_problem(*unit, k as int) matches Some((message, span))
            ==> r matches Some(e) && e.message@ == message && e.span == Some(span),
        definition_problem(*unit, k as int) is None ==> r is None,
{
    let (name, span, kind) = match definition_parts(&unit.program.items[k]) {
        Some(parts) => parts,
        None => return None,
    };
    if Type::from_name(name).is_some() || (kind != DefinitionKind::Type && same_text(name, "byte_len")) {
        let mut message = String::from_str("definition name `");
        message.append(name);
        message.append("` is reserved");
        return Some(Diagnostic::new(message, span));
    }
    proof {
        lemma_alias_target_some(unit.imports@, name@);
    }
    if find_alias(&unit.imports, name).is_some() {
        let mut message = String::from_str("definition `");
        message.append(name);
        message.append("` conflicts with an import alias");
        return Some(Diagnostic::new(message, span));
    }
    if defined_earlier(&unit.program.items, k, name, kind) {
        let mut message = String::from_str("duplicate ");
        message.append(kind_text(kind));
        message.append(" `");
        message.append(name);
        message.append("`");
        return Some(Diagnostic::new(message, span));
    }
    None
}

proof fn lemma_unit_problem_stable(unit: Unit, n: nat, m: nat)
    requires
        n <= m,
        unit_problem(unit, n) is Some,
    ensures
        unit_problem(unit, m) == unit_problem(unit, n),
    decreases m - n,
{
    if n < m {
        lemma_unit_problem_stable(unit, n, (m - 1) as nat);
    }
}

proof fn lemma_naming_problem_stable(units: Seq<Unit>, n: nat, m: nat)
    requires
        n <= m,
        naming_problem(units, n) is Some,
    ensures
        naming_problem(units, m) == naming_problem(units, n),
    decreases m - n,
{
    if n < m {
        lemma_naming_problem_stable(units, n, (m - 1) as nat);
    }
}

/// Checks the definitions of one unit and lists them by namespace.
fn collect_names(unit: &Unit, unit_index: usize) -> (r: Result<Names, Diagnostic>)
    ensures
        unit_problem(*unit, unit.program.items@.len()) matches Some((message, span))
            ==> r matches Err(e) && e.message@ == message && e.span == Some(span),
        unit_problem(*unit, unit.program.items@.len()) is None ==> r is Ok,
        r matches Ok(names) ==> tables_match(names, unit_index as int, *unit),
{
    let mut names = Names { functions: Vec::new(), types: Vec::new(), constants: Vec::new() };
    let mut k: usize = 0;
    while k < unit.program.items.len()
        invariant
            k <= unit.program.items@.len(),
            unit_problem(*unit, k as nat) is None,
            forall|kind: DefinitionKind, member: Seq<char>|
                found_view(#[trigger] lookup(table(names, kind), member))
                    == prefix_symbol(unit_index as int, *unit, k as nat, kind, member),
        decreases unit.program.items@.len() - k,
    {
        let ghost before = names;
        match check_definition(unit, k) {
            Some(e) => {
                proof {
                    lemma_unit_problem_stable(*unit, (k + 1) as nat, unit.program.items@.len());
                }
                return Err(e);
            },
            None => {},
        }
        let item = &unit.program.items[k];
        if let Some((name, span, kind)) = definition_parts(item) {
            let is_enum = match item {
                Item::TypeDefinition(d) => d.variants.is_some(),
                _ => false,
            };
            let symbol = Symbol {
                name: global_name_text(unit_index, unit.id, name, kind),
                public: is_exported(&unit.exports, span),
                is_enum,
            };
            let entry = (String::from_str(name), symbol);
            let ghost pushed = entry;
            proof {
                assert(symbol_view(entry.1) == definition_symbol(unit_index as int, *unit, k as int));
            }
            match kind {
                DefinitionKind::Function => names.functions.push(entry),
                DefinitionKind::Type => names.types.push(entry),
                DefinitionKind::Constant => names.constants.push(entry),
            }
            proof {
                assert forall|kd: DefinitionKind, member: Seq<char>|
                    found_view(#[trigger] lookup(table(names, kd), member))
                        == prefix_symbol(unit_index as int, *unit, (k + 1) as nat, kd, member) by {
                    if kd == kind {
                        assert(table(names, kd) == table(before, kd).push(pushed));
                        lemma_lookup_push(table(before, kd), pushed, member);
                    } else {
                        assert(table(names, kd) == table(before, kd));
                    }
                }
            }
        } else {
            proof {
                assert forall|kd: DefinitionKind, member: Seq<char>|
                    found_view(#[trigger] lookup(table(names, kd), member))
                        == prefix_symbol(unit_index as int, *unit, (k + 1) as nat, kd, member) by {
                    assert(!defines_as(unit.program.items@[k as int], member, kd));
                }
            }
        }
        k = k + 1;
    }
    Ok(names)
}

/// The position in the joined program of the first item of the unit at
/// position `u`: the items of the units before it come first.
pub open spec fn offset(units: Seq<Unit>, u: nat) -> int
    decreases u,
{
    if u == 0 {
        0
    } else {
        offset(units, (u - 1) as nat) + units[u - 1].program.items@.len()
    }
}

proof fn lemma_offset_monotone(units: Seq<Unit>, a: nat, b: nat)
    requires
        a <= b,
    ensures
        offset(units, a) <= offset(units, b),
    decreases b,
{
    if a < b {
        lemma_offset_monotone(units, a, (b - 1) as nat);
    }
}

/// Joins the units into one program: checks every unit's definitions (in
/// unit order, then item order), gives each definition its program-wide
/// name, and resolves every reference through the unit's names and import
/// aliases. The items keep their order, unit by unit. When the definitions
/// are sound and every item has a resolution (its names resolve and its
/// bindings are allowed), joining succeeds.
pub fn resolve(units: Vec<Unit>) -> (r: Result<Program, Diagnostic>)
    requires
        forall|u: int| 0 <= u < units@.len() ==> imports_valid((#[trigger] units@[u]).imports@, units@.len() as int),
    ensures
        naming_problem(units@, units@.len()) matches Some((message, span))
            ==> r matches Err(e) && e.message@ == message && e.span == Some(span),
        r matches Ok(p) ==> {
            &&& naming_problem(units@, units@.len()) is None
            &&& p.items@.len() == offset(units@, units@.len())
            &&& forall|u: int, k: int|
                #![trigger units@[u].program.items@[k]]
                0 <= u < units@.len() && 0 <= k < units@[u].program.items@.len() ==> resolves_item(
                    units@,
                    u,
                    units@[u].program.items@[k],
                    p.items@[offset(units@, u as nat) + k],
                )
        },
        naming_problem(units@, units@.len()) is None && (forall|u: int, k: int|
            #![trigger units@[u].program.items@[k]]
            0 <= u < units@.len() && 0 <= k < units@[u].program.items@.len() ==> item_resolvable(
                units@,
                u,
                units@[u].program.items@[k],
            )) ==> r is Ok,
{
    let ghost resolvable = forall|u: int, k: int|
        #![trigger units@[u].program.items@[k]]
        0 <= u < units@.len() && 0 <= k < units@[u].program.items@.len() ==> item_resolvable(
            units@,
            u,
            units@[u].program.items@[k],
        );
    let mut names: Vec<Names> = Vec::new();
    let mut u: usize = 0;
    while u < units.len()
        invariant
            u <= units@.len(),
            names@.len() == u,
            naming_problem(units@, u as nat) is None,
            forall|v: int| 0 <= v < u ==> tables_match(#[trigger] names@[v], v, units@[v]),
        decreases units@.len() - u,
    {
        match collect_names(&units[u], u) {
            Ok(table) => names.push(table),
            Err(e) => {
                proof {
                    lemma_naming_problem_stable(units@, (u + 1) as nat, units@.len());
                }
                return Err(e);
            },
        }
        u = u + 1;
    }
    let ghost orig = units@;
    let mut rest = units;
    let mut out: Vec<Item> = Vec::new();
    let mut index: usize = 0;
    while rest.len() > 0
        invariant
            index <= orig.len(),
            orig.len() <= usize::MAX,
            names@.len() == orig.len(),
            rest@ == orig.skip(index as int),
            naming_problem(orig, orig.len()) is None,
            orig == units@,
            forall|v: int| 0 <= v < orig.len() ==> imports_valid((#[trigger] orig[v]).imports@, orig.len() as int),
            forall|v: int| 0 <= v < orig.len() ==> tables_match(#[trigger] names@[v], v, orig[v]),
            out@.len() == offset(orig, index as nat),
            forall|v: int, k: int|
                #![trigger orig[v].program.items@[k]]
                0 <= v < index && 0 <= k < orig[v].program.items@.len() ==> resolves_item(
                    orig,
                    v,
                    orig[v].program.items@[k],
                    out@[offset(orig, v as nat) + k],
                ),
            resolvable == forall|u: int, k: int|
                #![trigger orig[u].program.items@[k]]
                0 <= u < orig.len() && 0 <= k < orig[u].program.items@.len() ==> item_resolvable(
                    orig,
                    u,
                    orig[u].program.items@[k],
                ),
        decreases rest@.len(),
    {
        let unit = rest.remove(0);
        proof {
            assert(unit == orig[index as int]);
            assert(rest@ =~= orig.skip(index + 1));
        }
        let ghost items = unit.program.items@;
        let ghost base = offset(orig, index as nat);
        let resolver = Resolver { names: &names, imports: &unit.imports, current: index, units: Ghost(orig) };
        let mut pending = unit.program.items;
        let ghost mut j: int = 0;
        while pending.len() > 0
            invariant
                resolver.valid(),
                resolver.current == index,
                resolver.units@ == orig,
                index < orig.len(),
                orig.len() <= usize::MAX,
                naming_problem(orig, orig.len()) is None,
                orig == units@,
                unit.id == orig[index as int].id,
                unit.exports@ == orig[index as int].exports@,
                items == orig[index as int].program.items@,
                base == offset(orig, index as nat),
                0 <= j <= items.len(),
                pending@ == items.skip(j),
                out@.len() == base + j,
                forall|v: int, k: int|
                    #![trigger orig[v].program.items@[k]]
                    0 <= v < index && 0 <= k < orig[v].program.items@.len() ==> resolves_item(
                        orig,
                        v,
                        orig[v].program.items@[k],
                        out@[offset(orig, v as nat) + k],
                    ),
                forall|k: int| 0 <= k < j ==> resolves_item(orig, index as int, #[trigger] items[k], out@[base + k]),
                resolvable == forall|u: int, k: int|
                    #![trigger orig[u].program.items@[k]]
                    0 <= u < orig.len() && 0 <= k < orig[u].program.items@.len() ==> item_resolvable(
                        orig,
                        u,
                        orig[u].program.items@[k],
                    ),
            decreases pending@.len(),
        {
            let item = pending.remove(0);
            proof {
                assert(item == items[j]);
                assert(pending@ =~= items.skip(j + 1));
                if resolvable {
                    assert(item_resolvable(orig, index as int, orig[index as int].program.items@[j]));
                }
            }
            let resolved = resolver.item(item, unit.id, &unit.exports)?;
            let ghost earlier = out@;
            let ghost made = resolved;
            out.push(resolved);
            proof {
                assert(out@ == earlier.push(made));
                assert(earlier.len() == base + j);
                lemma_offset_monotone(orig, 0, index as nat);
                assert forall|v: int, k: int|
                    #![trigger orig[v].program.items@[k]]
                    0 <= v < index && 0 <= k < orig[v].program.items@.len() implies resolves_item(
                        orig,
                        v,
                        orig[v].program.items@[k],
                        out@[offset(orig, v as nat) + k],
                    ) by {
                    lemma_offset_monotone(orig, (v + 1) as nat, index as nat);
                    lemma_offset_monotone(orig, 0, v as nat);
                    assert(out@[offset(orig, v as nat) + k] == earlier[offset(orig, v as nat) + k]);
                }
                assert forall|k: int| 0 <= k < j + 1 implies resolves_item(orig, index as int, #[trigger] items[k], out@[base + k]) by {
                    if k < j {
                        assert(out@[base + k] == earlier[base + k]);
                    }
                }
                j = j + 1;
            }
        }
        proof {
            assert forall|v: int, k: int|
                #![trigger orig[v].program.items@[k]]
                0 <= v < index + 1 && 0 <= k < orig[v].program.items@.len() implies resolves_item(
                    orig,
                    v,
                    orig[v].program.items@[k],
                    out@[offset(orig, v as nat) + k],
                ) by {
                if v == index {
                    assert(orig[v].program.items@[k] == items[k]);
                }
            }
        }
        index = index + 1;
    }
    Ok(Program { items: out })
}

} // verus!
