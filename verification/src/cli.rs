//! The grammar of the `cerune` command line: commands and their options.
//!
//! The program reads the arguments and files; these functions decide what
//! the arguments mean, and which message a malformed command line gets.
use vstd::prelude::*;
use crate::text::{joined, same_text};

verus! {

/// The views of a list of arguments.
pub open spec fn arg_views(args: Seq<String>) -> Seq<Seq<char>> {
    args.map_values(|a: String| a@)
}

/// The `cerune` subcommands.
#[derive(Debug, Clone, Copy, PartialEq, Eq, Structural)]
pub enum Command {
    Check,
    EmitSources,
    EmitIr,
    EmitC,
    EmitLlvm,
    EmitWat,
    EmitQbe,
    EmitAsm,
    EmitObj,
    EmitBytecode,
    Run,
    Version,
    Help,
}

/// The command that a first argument selects.
pub open spec fn command_named(name: Seq<char>) -> Option<Command> {
    if name == "check"@ {
        Some(Command::Check)
    } else if name == "emit-sources"@ {
        Some(Command::EmitSources)
    } else if name == "emit-ir"@ {
        Some(Command::EmitIr)
    } else if name == "emit-c"@ {
        Some(Command::EmitC)
    } else if name == "emit-llvm"@ {
        Some(Command::EmitLlvm)
    } else if name == "emit-wat"@ {
        Some(Command::EmitWat)
    } else if name == "emit-qbe"@ {
        Some(Command::EmitQbe)
    } else if name == "emit-asm"@ {
        Some(Command::EmitAsm)
    } else if name == "emit-obj"@ {
        Some(Command::EmitObj)
    } else if name == "emit-bytecode"@ {
        Some(Command::EmitBytecode)
    } else if name == "run"@ {
        Some(Command::Run)
    } else if name == "--version"@ || name == "-V"@ || name == "version"@ {
        Some(Command::Version)
    } else if name == "--help"@ || name == "-h"@ || name == "help"@ {
        Some(Command::Help)
    } else {
        None
    }
}

/// The format that an `emit-` command writes out: the program's sources,
/// its checked IR, C, LLVM IR, WebAssembly text, QBE IL, assembly, an
/// object file or bytecode. Other commands emit nothing.
pub open spec fn emitted_format(c: Command) -> Option<Seq<char>> {
    match c {
        Command::EmitSources => Some("sources"@),
        Command::EmitIr => Some("ir"@),
        Command::EmitC => Some("c"@),
        Command::EmitLlvm => Some("llvm"@),
        Command::EmitWat => Some("wat"@),
        Command::EmitQbe => Some("qbe"@),
        Command::EmitAsm => Some("asm"@),
        Command::EmitObj => Some("obj"@),
        Command::EmitBytecode => Some("bytecode"@),
        _ => None,
    }
}

/// The word under which a command is documented: `emit-` and its format
/// for the emitting commands, else the verb itself.
pub open spec fn documented_word(c: Command) -> Seq<char> {
    match emitted_format(c) {
        Some(format) => "emit-"@ + format,
        None => match c {
            Command::Check => "check"@,
            Command::Run => "run"@,
            Command::Version => "version"@,
            _ => "help"@,
        },
    }
}

/// A word selects the command documented under it, or, for `--version`
/// and `-V`, the version command and, for `--help` and `-h`, the help
/// command; every command is selected by its documented word. So distinct
/// documented words select distinct commands, and `emit-X` emits `X`.
pub proof fn lemma_command_words_select_their_command(name: Seq<char>, c: Command)
    ensures
        command_named(name) matches Some(d) ==> {
            ||| name == documented_word(d)
            ||| d == Command::Version && (name == "--version"@ || name == "-V"@)
            ||| d == Command::Help && (name == "--help"@ || name == "-h"@)
        },
        command_named(documented_word(c)) == Some(c),
{
    reveal_strlit("emit-");
    reveal_strlit("sources");
    reveal_strlit("ir");
    reveal_strlit("c");
    reveal_strlit("llvm");
    reveal_strlit("wat");
    reveal_strlit("qbe");
    reveal_strlit("asm");
    reveal_strlit("obj");
    reveal_strlit("bytecode");
    reveal_strlit("check");
    reveal_strlit("run");
    reveal_strlit("version");
    reveal_strlit("help");
    reveal_strlit("emit-sources");
    reveal_strlit("emit-ir");
    reveal_strlit("emit-c");
    reveal_strlit("emit-llvm");
    reveal_strlit("emit-wat");
    reveal_strlit("emit-qbe");
    reveal_strlit("emit-asm");
    reveal_strlit("emit-obj");
    reveal_strlit("emit-bytecode");
    reveal_strlit("--version");
    reveal_strlit("-V");
    reveal_strlit("--help");
    reveal_strlit("-h");
    let e = "emit-"@;
    assert(e =~= seq!['e', 'm', 'i', 't', '-']);
    assert(e + "sources"@ =~= "emit-sources"@);
    assert(e + "ir"@ =~= "emit-ir"@);
    assert(e + "c"@ =~= "emit-c"@);
    assert(e + "llvm"@ =~= "emit-llvm"@);
    assert(e + "wat"@ =~= "emit-wat"@);
    assert(e + "qbe"@ =~= "emit-qbe"@);
    assert(e + "asm"@ =~= "emit-asm"@);
    assert(e + "obj"@ =~= "emit-obj"@);
    assert(e + "bytecode"@ =~= "emit-bytecode"@);
    assert("check"@ =~= seq!['c', 'h', 'e', 'c', 'k']);
    assert("run"@ =~= seq!['r', 'u', 'n']);
    assert("version"@ =~= seq!['v', 'e', 'r', 's', 'i', 'o', 'n']);
    assert("help"@ =~= seq!['h', 'e', 'l', 'p']);
    assert("emit-sources"@ =~= seq!['e', 'm', 'i', 't', '-', 's', 'o', 'u', 'r', 'c', 'e', 's']);
    assert("emit-ir"@ =~= seq!['e', 'm', 'i', 't', '-', 'i', 'r']);
    assert("emit-c"@ =~= seq!['e', 'm', 'i', 't', '-', 'c']);
    assert("emit-llvm"@ =~= seq!['e', 'm', 'i', 't', '-', 'l', 'l', 'v', 'm']);
    assert("emit-wat"@ =~= seq!['e', 'm', 'i', 't', '-', 'w', 'a', 't']);
    assert("emit-qbe"@ =~= seq!['e', 'm', 'i', 't', '-', 'q', 'b', 'e']);
    assert("emit-asm"@ =~= seq!['e', 'm', 'i', 't', '-', 'a', 's', 'm']);
    assert("emit-obj"@ =~= seq!['e', 'm', 'i', 't', '-', 'o', 'b', 'j']);
    assert("emit-bytecode"@ =~= seq!['e', 'm', 'i', 't', '-', 'b', 'y', 't', 'e', 'c', 'o', 'd', 'e']);
    assert("--version"@ =~= seq!['-', '-', 'v', 'e', 'r', 's', 'i', 'o', 'n']);
    assert("-V"@ =~= seq!['-', 'V']);
    assert("--help"@ =~= seq!['-', '-', 'h', 'e', 'l', 'p']);
    assert("-h"@ =~= seq!['-', 'h']);
}

impl Command {
    /// Selects the command named by the first argument; any other word is an
    /// ``unknown command `word` `` error.
    pub fn from_name(name: &str) -> (r: Result<Command, String>)
        ensures
            r matches Ok(c) ==> command_named(name@) == Some(c),
            r matches Err(e) ==> command_named(name@) is None
                && e@ == "unknown command `"@ + name@ + "`"@,
    {
        if same_text(name, "check") {
            Ok(Command::Check)
        } else if same_text(name, "emit-sources") {
            Ok(Command::EmitSources)
        } else if same_text(name, "emit-ir") {
            Ok(Command::EmitIr)
        } else if same_text(name, "emit-c") {
            Ok(Command::EmitC)
        } else if same_text(name, "emit-llvm") {
            Ok(Command::EmitLlvm)
        } else if same_text(name, "emit-wat") {
            Ok(Command::EmitWat)
        } else if same_text(name, "emit-qbe") {
            Ok(Command::EmitQbe)
        } else if same_text(name, "emit-asm") {
            Ok(Command::EmitAsm)
        } else if same_text(name, "emit-obj") {
            Ok(Command::EmitObj)
        } else if same_text(name, "emit-bytecode") {
            Ok(Command::EmitBytecode)
        } else if same_text(name, "run") {
            Ok(Command::Run)
        } else if same_text(name, "--version") || same_text(name, "-V") || same_text(name, "version") {
            Ok(Command::Version)
        } else if same_text(name, "--help") || same_text(name, "-h") || same_text(name, "help") {
            Ok(Command::Help)
        } else {
            let mut e = joined("unknown command `", name);
            e.append("`");
            Err(e)
        }
    }
}

/// The input path that a command needs, or `message` when it is missing.
pub fn required_path(value: Option<String>, message: &str) -> (r: Result<String, String>)
    ensures
        value matches Some(v) ==> r == Ok::<String, String>(v),
        value is None ==> (r matches Err(e) && e@ == message@),
{
    match value {
        Some(v) => Ok(v),
        None => Err(String::from_str(message)),
    }
}

/// Refuses any argument after the ones a command takes.
pub fn reject_extra(rest: &[String]) -> (r: Result<(), String>)
    ensures
        rest@.len() == 0 ==> r is Ok,
        rest@.len() > 0 ==> (r matches Err(e) && e@ == "unexpected argument `"@ + rest@[0]@ + "`"@),
{
    if rest.len() == 0 {
        Ok(())
    } else {
        let mut e = joined("unexpected argument `", rest[0].as_str());
        e.append("`");
        Err(e)
    }
}

/// Whether `flag` is `-o` or `--output`.
pub open spec fn is_output_flag(flag: Seq<char>) -> bool {
    flag == "-o"@ || flag == "--output"@
}

/// The optional `-o <path>` of the text-emitting commands; anything else is
/// `usage: <usage>`.
pub fn parse_output_option(args: &[String], usage: &str) -> (r: Result<Option<String>, String>)
    ensures
        args@.len() == 0 ==> r matches Ok(None),
        args@.len() == 2 && is_output_flag(args@[0]@) ==> (r matches Ok(Some(p)) && p@ == args@[1]@),
        !(args@.len() == 0 || (args@.len() == 2 && is_output_flag(args@[0]@))) ==> (r matches Err(e) && e@ == "usage: "@ + usage@),
{
    if args.len() == 0 {
        return Ok(None);
    }
    if args.len() == 2 {
        let flag = args[0].as_str();
        if same_text(flag, "-o") || same_text(flag, "--output") {
            return Ok(Some(args[1].clone()));
        }
    }
    Err(joined("usage: ", usage))
}

/// The routes that accept `--annotate-origins`.
pub open spec fn annotates(route: Seq<char>) -> bool {
    route == "emit-llvm"@ || route == "emit-asm"@ || route == "emit-obj"@
}

/// The options of the native-code commands, read left to right from a state
/// of output path, target triple and annotation flag. Each option may appear
/// once; `None` means the line is malformed.
pub open spec fn native_options(
    args: Seq<Seq<char>>,
    route: Seq<char>,
    output: Option<Seq<char>>,
    target: Option<Seq<char>>,
    annotate: bool,
) -> Option<(Option<Seq<char>>, Option<Seq<char>>, bool)>
    decreases args.len(),
{
    if args.len() == 0 {
        Some((output, target, annotate))
    } else if args[0] == "--annotate-origins"@ && annotates(route) && !annotate {
        native_options(args.skip(1), route, output, target, true)
    } else if args.len() >= 2 && is_output_flag(args[0]) && output is None {
        native_options(args.skip(2), route, Some(args[1]), target, annotate)
    } else if args.len() >= 2 && args[0] == "--target"@ && target is None {
        native_options(args.skip(2), route, output, Some(args[1]), annotate)
    } else {
        None
    }
}

/// The message of a malformed native-code command line.
pub open spec fn native_usage(route: Seq<char>, extension: Seq<char>) -> Seq<char> {
    "usage: cerune "@ + route + " <file> [--target <triple>] [-o <output."@ + extension + ">]"@
}

pub open spec fn option_view(o: Option<String>) -> Option<Seq<char>> {
    match o {
        Some(s) => Some(s@),
        None => None,
    }
}

/// Reads `[--target <triple>] [--annotate-origins] [-o <path>]` in any order.
pub fn parse_native_options(args: &[String], route: &str, extension: &str) -> (r: Result<
    (Option<String>, Option<String>, bool),
    String,
>)
    ensures
        native_options(arg_views(args@), route@, None, None, false) matches Some(v) ==> (r matches Ok(
            (output, target, annotate),
        ) && (option_view(output), option_view(target), annotate) == v),
        native_options(arg_views(args@), route@, None, None, false) is None ==> (r matches Err(e)
            && e@ == native_usage(route@, extension@)),
{
    let ghost all = arg_views(args@);
    let annotating = same_text(route, "emit-llvm") || same_text(route, "emit-asm") || same_text(
        route,
        "emit-obj",
    );
    let mut output: Option<String> = None;
    let mut target: Option<String> = None;
    let mut annotate = false;
    let mut i: usize = 0;
    assert(all.skip(0) =~= all);
    while i < args.len()
        invariant
            i <= args@.len(),
            all == arg_views(args@),
            annotating == annotates(route@),
            native_options(all, route@, None, None, false) == native_options(
                all.skip(i as int),
                route@,
                option_view(output),
                option_view(target),
                annotate,
            ),
        decreases args@.len() - i,
    {
        let ghost rest = all.skip(i as int);
        assert(rest[0] == args@[i as int]@);
        let flag = args[i].as_str();
        if same_text(flag, "--annotate-origins") && annotating && !annotate {
            assert(rest.skip(1) =~= all.skip(i + 1));
            annotate = true;
            i = i + 1;
            continue;
        }
        if i + 1 < args.len() {
            assert(rest[1] == args@[i + 1]@);
            assert(rest.skip(2) =~= all.skip(i + 2));
            if (same_text(flag, "-o") || same_text(flag, "--output")) && output.is_none() {
                output = Some(args[i + 1].clone());
                i = i + 2;
                continue;
            }
            if same_text(flag, "--target") && target.is_none() {
                target = Some(args[i + 1].clone());
                i = i + 2;
                continue;
            }
        }
        let mut e = joined("usage: cerune ", route);
        e.append(" <file> [--target <triple>] [-o <output.");
        e.append(extension);
        e.append(">]");
        return Err(e);
    }
    assert(all.skip(i as int).len() == 0);
    Ok((output, target, annotate))
}

/// The options of `run`: nothing, or `--diagnostic-format runtime-v1` to
/// report runtime failures as records. The result says whether records were asked for.
pub fn parse_run_options(args: &[String]) -> (r: Result<bool, String>)
    ensures
        args@.len() == 0 ==> r == Ok::<bool, String>(false),
        args@.len() == 2 && args@[0]@ == "--diagnostic-format"@ && args@[1]@ == "runtime-v1"@
            ==> r == Ok::<bool, String>(true),
        !(args@.len() == 0 || (args@.len() == 2 && args@[0]@ == "--diagnostic-format"@
            && args@[1]@ == "runtime-v1"@)) ==> (r matches Err(e)
            && e@ == "usage: cerune run <file> [--diagnostic-format runtime-v1]"@),
{
    if args.len() == 0 {
        return Ok(false);
    }
    if args.len() == 2 && same_text(args[0].as_str(), "--diagnostic-format") && same_text(
        args[1].as_str(),
        "runtime-v1",
    ) {
        return Ok(true);
    }
    Err(String::from_str("usage: cerune run <file> [--diagnostic-format runtime-v1]"))
}

} // verus!
