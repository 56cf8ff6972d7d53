use cerune_lang::bytecode::{BytecodeFunction, BytecodeProgram};
use cerune_lang::embedding::{FunctionResolutionError, resolve_function};

fn compiled_add() -> BytecodeProgram {
    // the function table of `fn add(lhs: f64, rhs: f64) -> f64 { return lhs + rhs; }`
    // after the entry function
    BytecodeProgram {
        functions: vec![
            BytecodeFunction { name: "add".to_owned() },
            BytecodeFunction { name: "$main".to_owned() },
        ],
    }
}

#[test]
fn resolves_function_by_name() {
    let program = compiled_add();

    let resolved = resolve_function(&program, "add").unwrap();

    let expected_id = program
        .functions
        .iter()
        .position(|function| function.name == "add")
        .unwrap();

    assert_eq!(resolved.function_id(), expected_id);
}

#[test]
fn reports_missing_function() {
    let program = compiled_add();

    assert_eq!(
        resolve_function(&program, "missing"),
        Err(FunctionResolutionError::NotFound { name: "missing".to_owned() })
    );
}

#[test]
fn rejects_ambiguous_function_name() {
    let mut program = compiled_add();

    let duplicate = program.functions[0].clone();
    program.functions.push(duplicate);

    assert_eq!(
        resolve_function(&program, "add"),
        Err(FunctionResolutionError::Ambiguous { name: "add".to_owned(), matches: 2 })
    );
}

#[test]
fn later_functions_resolve_to_their_own_position() {
    let program = BytecodeProgram {
        functions: vec![
            BytecodeFunction { name: "a".to_owned() },
            BytecodeFunction { name: "b".to_owned() },
            BytecodeFunction { name: "c".to_owned() },
        ],
    };
    assert_eq!(resolve_function(&program, "c").unwrap().function_id(), 2);
    assert_eq!(
        resolve_function(&BytecodeProgram { functions: vec![] }, "a"),
        Err(FunctionResolutionError::NotFound { name: "a".to_owned() })
    );
}
