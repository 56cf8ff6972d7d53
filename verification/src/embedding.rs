//! Looking up the functions of a compiled program from a host.
use vstd::prelude::*;
use crate::bytecode::{BytecodeFunction, BytecodeProgram};
use crate::text::same_text;

verus! {

/// A function found in one compiled program. It is meant for repeated calls
/// into that same program; its id is not a stable identifier.
#[derive(Debug, Clone, Copy, PartialEq, Eq, Structural)]
pub struct ResolvedFunction {
    function_id: usize,
}

impl ResolvedFunction {
    pub closed spec fn spec_id(&self) -> usize {
        self.function_id
    }

    /// The position of the function in the program's table.
    pub fn function_id(&self) -> (r: usize)
        ensures
            r == self.spec_id(),
    {
        self.function_id
    }
}

/// Why a name did not resolve.
#[derive(Debug, Clone, PartialEq, Eq)]
pub enum FunctionResolutionError {
    NotFound { name: String },
    Ambiguous { name: String, matches: usize },
}

/// How many functions of `functions` are named `name`.
pub open spec fn count_named(functions: Seq<BytecodeFunction>, name: Seq<char>) -> nat
    decreases functions.len(),
{
    if functions.len() == 0 {
        0
    } else {
        count_named(functions.drop_last(), name) + if functions.last().name@ == name {
            1nat
        } else {
            0nat
        }
    }
}

proof fn lemma_count_single(functions: Seq<BytecodeFunction>, name: Seq<char>, i: int)
    requires
        0 <= i < functions.len(),
        functions[i].name@ == name,
        count_named(functions, name) == 1,
    ensures
        forall|j: int| 0 <= j < functions.len() && j != i ==> functions[j].name@ != name,
    decreases functions.len(),
{
    assert forall|j: int| 0 <= j < functions.len() && j != i implies functions[j].name@ != name by {
        if functions[j].name@ == name {
            lemma_count_two(functions, name, i, j);
        }
    }
}

proof fn lemma_count_two(functions: Seq<BytecodeFunction>, name: Seq<char>, i: int, j: int)
    requires
        0 <= i < functions.len(),
        0 <= j < functions.len(),
        i != j,
        functions[i].name@ == name,
        functions[j].name@ == name,
    ensures
        count_named(functions, name) >= 2,
    decreases functions.len(),
{
    let n = functions.len() - 1;
    if i == n {
        lemma_count_positive(functions.drop_last(), name, j);
    } else if j == n {
        lemma_count_positive(functions.drop_last(), name, i);
    } else {
        lemma_count_two(functions.drop_last(), name, i, j);
    }
}

proof fn lemma_count_positive(functions: Seq<BytecodeFunction>, name: Seq<char>, i: int)
    requires
        0 <= i < functions.len(),
        functions[i].name@ == name,
    ensures
        count_named(functions, name) >= 1,
    decreases functions.len(),
{
    if i < functions.len() - 1 {
        lemma_count_positive(functions.drop_last(), name, i);
    }
}

/// Finds the function named `name` in a compiled program.
///
/// It resolves when exactly one function has the name; with none it reports
/// `NotFound`, with several `Ambiguous` and how many there are.
pub fn resolve_function(program: &BytecodeProgram, name: &str) -> (r: Result<
    ResolvedFunction,
    FunctionResolutionError,
>)
    ensures
        r matches Ok(f) ==> {
            &&& count_named(program.functions@, name@) == 1
            &&& f.spec_id() < program.functions@.len()
            &&& program.functions@[f.spec_id() as int].name@ == name@
        },
        r matches Err(FunctionResolutionError::NotFound { name: n }) ==> {
            &&& count_named(program.functions@, name@) == 0
            &&& n@ == name@
        },
        r matches Err(FunctionResolutionError::Ambiguous { name: n, matches }) ==> {
            &&& count_named(program.functions@, name@) >= 2
            &&& matches == count_named(program.functions@, name@)
            &&& n@ == name@
        },
{
    let mut first: Option<usize> = None;
    let mut count: usize = 0;
    let mut i: usize = 0;
    while i < program.functions.len()
        invariant
            i <= program.functions@.len(),
            count == count_named(program.functions@.take(i as int), name@),
            count <= i,
            count == 0 <==> first is None,
            first matches Some(k) ==> k < i && program.functions@[k as int].name@ == name@,
        decreases program.functions@.len() - i,
    {
        assert(program.functions@.take(i as int + 1).drop_last() =~= program.functions@.take(i as int));
        if same_text(program.functions[i].name.as_str(), name) {
            if first.is_none() {
                first = Some(i);
            }
            count = count + 1;
        }
        i = i + 1;
    }
    assert(program.functions@.take(i as int) =~= program.functions@);
    match first {
        None => Err(FunctionResolutionError::NotFound { name: name.to_owned() }),
        Some(function_id) => {
            if count != 1 {
                Err(FunctionResolutionError::Ambiguous { name: name.to_owned(), matches: count })
            } else {
                Ok(ResolvedFunction { function_id })
            }
        },
    }
}

/// Only the one function that carries a name resolves from it.
pub proof fn resolution_names_the_only_match(
    functions: Seq<BytecodeFunction>,
    name: Seq<char>,
    id: int,
)
    requires
        0 <= id < functions.len(),
        functions[id].name@ == name,
        count_named(functions, name) == 1,
    ensures
        forall|j: int| 0 <= j < functions.len() && functions[j].name@ == name ==> j == id,
{
    lemma_count_single(functions, name, id);
}

} // verus!
