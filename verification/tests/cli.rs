use cerune_lang::cli::{
    Command, parse_native_options, parse_output_option, parse_run_options, reject_extra, required_path,
};

fn args(values: &[&str]) -> Vec<String> {
    values.iter().map(|v| v.to_string()).collect()
}

#[test]
fn commands_are_selected_by_name() {
    assert_eq!(Command::from_name("check"), Ok(Command::Check));
    assert_eq!(Command::from_name("emit-llvm"), Ok(Command::EmitLlvm));
    assert_eq!(Command::from_name("-V"), Ok(Command::Version));
    assert_eq!(Command::from_name("help"), Ok(Command::Help));
    assert_eq!(Command::from_name("build"), Err("unknown command `build`".to_string()));
}

#[test]
fn output_option_accepts_only_one_path() {
    assert_eq!(parse_output_option(&args(&[]), "u"), Ok(None));
    assert_eq!(parse_output_option(&args(&["-o", "a.c"]), "u"), Ok(Some("a.c".to_string())));
    assert_eq!(parse_output_option(&args(&["--output", "b"]), "u"), Ok(Some("b".to_string())));
    assert_eq!(
        parse_output_option(&args(&["-x", "a.c"]), "cerune emit-c <file> [-o <output.c>]"),
        Err("usage: cerune emit-c <file> [-o <output.c>]".to_string())
    );
    assert_eq!(parse_output_option(&args(&["-o"]), "u"), Err("usage: u".to_string()));
}

#[test]
fn native_options_read_in_any_order_once_each() {
    assert_eq!(
        parse_native_options(&args(&["--target", "x86_64-unknown-linux-gnu", "-o", "a.s"]), "emit-asm", "s"),
        Ok((Some("a.s".to_string()), Some("x86_64-unknown-linux-gnu".to_string()), false))
    );
    assert_eq!(
        parse_native_options(&args(&["--annotate-origins", "-o", "a.ll"]), "emit-llvm", "ll"),
        Ok((Some("a.ll".to_string()), None, true))
    );
    assert_eq!(parse_native_options(&args(&[]), "emit-qbe", "ssa"), Ok((None, None, false)));
    let usage = "usage: cerune emit-qbe <file> [--target <triple>] [-o <output.ssa>]".to_string();
    assert_eq!(parse_native_options(&args(&["--annotate-origins"]), "emit-qbe", "ssa"), Err(usage.clone()));
    assert_eq!(parse_native_options(&args(&["-o", "a", "-o", "b"]), "emit-qbe", "ssa"), Err(usage.clone()));
    assert_eq!(parse_native_options(&args(&["--target"]), "emit-qbe", "ssa"), Err(usage));
    assert!(parse_native_options(&args(&["--annotate-origins", "--annotate-origins"]), "emit-obj", "o").is_err());
}

#[test]
fn run_accepts_only_the_record_format() {
    assert_eq!(parse_run_options(&args(&[])), Ok(false));
    assert_eq!(parse_run_options(&args(&["--diagnostic-format", "runtime-v1"])), Ok(true));
    assert_eq!(
        parse_run_options(&args(&["--diagnostic-format", "runtime-v2"])),
        Err("usage: cerune run <file> [--diagnostic-format runtime-v1]".to_string())
    );
}

#[test]
fn extra_arguments_and_missing_paths_are_reported() {
    assert_eq!(reject_extra(&args(&[])), Ok(()));
    assert_eq!(reject_extra(&args(&["x", "y"])), Err("unexpected argument `x`".to_string()));
    assert_eq!(required_path(Some("a.ceru".to_string()), "missing input file"), Ok("a.ceru".to_string()));
    assert_eq!(required_path(None, "missing input file"), Err("missing input file".to_string()));
}
