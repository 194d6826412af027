//! Command-line arguments: deciding how the interpreter should behave.

use vstd::prelude::*;

verus! {

/// An argument that could not be understood.
#[derive(Debug, PartialEq)]
pub struct ArgParseError {
    /// `msg` describes what went wrong
    pub msg: String,
}

/// Behaviors of the CLI based on the arguments passed by the user.
#[derive(Debug, PartialEq, Eq, Structural, Clone, Copy)]
pub enum Behavior {
    /// Read, Execute, Print Loop
    REPL,
    /// Display standard CLI help
    HELP,
}

/// Options that affect the behavior of the CLI.
#[derive(Debug, PartialEq, Eq, Structural, Clone, Copy)]
pub struct Options {
    pub verbose: bool,
}

/// The arguments as character sequences.
pub open spec fn arg_views(arguments: Seq<String>) -> Seq<Seq<char>> {
    arguments.map_values(|a: String| a@)
}

/// `--help` or `-h`.
pub open spec fn is_help_flag(a: Seq<char>) -> bool {
    a == "--help"@ || a == "-h"@
}

/// Some argument after the program name asks for help.
pub open spec fn help_requested(args: Seq<Seq<char>>) -> bool {
    exists|k: int| 1 <= k < args.len() && is_help_flag(#[trigger] args[k])
}

/// Every argument after the program name is `--verbose`.
pub open spec fn all_verbose(args: Seq<Seq<char>>) -> bool {
    forall|k: int| 1 <= k < args.len() ==> #[trigger] args[k] == "--verbose"@
}

/// `args[k]` is the first argument after the program name that is not
/// `--verbose`.
pub open spec fn first_unknown_at(args: Seq<Seq<char>>, k: int) -> bool {
    &&& 1 <= k < args.len()
    &&& args[k] != "--verbose"@
    &&& forall|j: int| 1 <= j < k ==> #[trigger] args[j] == "--verbose"@
}

/// Parse the command line (program name first, then the arguments) into a
/// decision about how the CLI should behave. Any `--help` or `-h` asks for
/// help; otherwise every argument must be `--verbose`.
pub fn parse_args_iter(arguments: Vec<String>) -> (r: Result<(Behavior, Options), ArgParseError>)
    ensures
        help_requested(arg_views(arguments@)) ==> r == Ok::<(Behavior, Options), ArgParseError>(
            (Behavior::HELP, (Options { verbose: false })),
        ),
        !help_requested(arg_views(arguments@)) && all_verbose(arg_views(arguments@)) ==> r == Ok::<
            (Behavior, Options),
            ArgParseError,
        >((Behavior::REPL, (Options { verbose: arguments@.len() > 1 }))),
        !help_requested(arg_views(arguments@)) && !all_verbose(arg_views(arguments@)) ==> (r matches Err(
            e,
        ) && exists|k: int|
            #[trigger] first_unknown_at(arg_views(arguments@), k) && e.msg@ == "unknown argument: "@
                + arg_views(arguments@)[k]),
{
    let ghost args = arg_views(arguments@);
    let n = arguments.len();
    let help = "--help".to_owned();
    let short_help = "-h".to_owned();
    let verbose = "--verbose".to_owned();
    // Any placement of --help is sufficient to get help
    let mut k: usize = 1;
    while k < n
        invariant
            n == arguments@.len(),
            args == arg_views(arguments@),
            help@ == "--help"@,
            short_help@ == "-h"@,
            1 <= k,
            forall|j: int| 1 <= j < k && j < n ==> !is_help_flag(#[trigger] args[j]),
        decreases n - k,
    {
        assert(args[k as int] == arguments@[k as int]@);
        if arguments[k] == help || arguments[k] == short_help {
            return Ok((Behavior::HELP, Options { verbose: false }));
        }
        k = k + 1;
    }
    let mut options = Options { verbose: false };
    k = 1;
    while k < n
        invariant
            n == arguments@.len(),
            args == arg_views(arguments@),
            verbose@ == "--verbose"@,
            forall|j: int| 1 <= j < n ==> !is_help_flag(#[trigger] args[j]),
            1 <= k,
            forall|j: int| 1 <= j < k && j < n ==> #[trigger] args[j] == "--verbose"@,
            options.verbose == (k > 1 && n > 1),
        decreases n - k,
    {
        assert(args[k as int] == arguments@[k as int]@);
        if arguments[k] == verbose {
            options.verbose = true;
        } else {
            let mut msg = "unknown argument: ".to_owned();
            msg.append(arguments[k].as_str());
            proof {
                assert(first_unknown_at(args, k as int));
                assert(!all_verbose(args));
            }
            return Err(ArgParseError { msg });
        }
        k = k + 1;
    }
    assert(all_verbose(args));
    Ok((Behavior::REPL, options))
}

} // verus!
