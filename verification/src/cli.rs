//! The command line.
use crate::text::same_text;
use vstd::prelude::*;

verus! {

/// What the program is asked to do.
#[derive(Clone, Copy, Debug, PartialEq, Eq, Structural)]
pub enum Command {
    Help,
    Version,
    Enable,
    Disable,
    Status,
    Test,
    Log,
}

/// The command line, read.
#[derive(Clone, Copy, Debug, PartialEq, Eq, Structural)]
pub struct Invocation {
    pub command: Command,
    pub silent: bool,
    pub force: bool,
}

/// One of the arguments is `word`.
pub open spec fn has_arg(args: Seq<String>, word: Seq<char>) -> bool {
    exists|i: int| 0 <= i < args.len() && (#[trigger] args[i])@ == word
}

/// The command that an action names; an unknown one asks for help.
pub open spec fn named_command(action: Seq<char>) -> Command {
    if action == "enable"@ {
        Command::Enable
    } else if action == "disable"@ {
        Command::Disable
    } else if action == "status"@ {
        Command::Status
    } else if action == "test"@ {
        Command::Test
    } else if action == "log"@ {
        Command::Log
    } else {
        Command::Help
    }
}

/// What the arguments ask for, the program's name among them as the first. A request for help comes
/// before one for the version, and both before the action, which is the argument behind the
/// program's name, and `status` where there is none.
pub open spec fn invocation(args: Seq<String>) -> Invocation {
    let action: Seq<char> = if args.len() > 1 {
        args[1]@
    } else {
        "status"@
    };
    Invocation {
        command: if has_arg(args, "-h"@) || has_arg(args, "--help"@) {
            Command::Help
        } else if has_arg(args, "-V"@) || has_arg(args, "--version"@) {
            Command::Version
        } else {
            named_command(action)
        },
        silent: has_arg(args, "--silent"@),
        force: has_arg(args, "--force"@),
    }
}

/// Whether one of the arguments is `word`.
pub fn contains_arg(args: &[String], word: &str) -> (r: bool)
    ensures
        r == has_arg(args@, word@),
{
    let mut i: usize = 0;
    while i < args.len()
        invariant
            i <= args@.len(),
            forall|k: int| 0 <= k < i ==> (#[trigger] args@[k])@ != word@,
        decreases args@.len() - i,
    {
        if same_text(args[i].as_str(), word) {
            return true;
        }
        i = i + 1;
    }
    false
}

/// The command that an action names.
pub fn command_of(action: &str) -> (r: Command)
    ensures
        r == named_command(action@),
{
    if same_text(action, "enable") {
        Command::Enable
    } else if same_text(action, "disable") {
        Command::Disable
    } else if same_text(action, "status") {
        Command::Status
    } else if same_text(action, "test") {
        Command::Test
    } else if same_text(action, "log") {
        Command::Log
    } else {
        Command::Help
    }
}

/// Reads the command line, the program's name among its arguments as the first.
pub fn parse_args(args: &[String]) -> (r: Invocation)
    ensures
        r == invocation(args@),
{
    let silent: bool = contains_arg(args, "--silent");
    let force: bool = contains_arg(args, "--force");
    let command: Command = if contains_arg(args, "-h") || contains_arg(args, "--help") {
        Command::Help
    } else if contains_arg(args, "-V") || contains_arg(args, "--version") {
        Command::Version
    } else if args.len() > 1 {
        command_of(args[1].as_str())
    } else {
        command_of("status")
    };
    Invocation { command, silent, force }
}

/// What a command line asks for. One of the words for help among the arguments asks for help; else
/// one of those for the version asks for the version; else the argument behind the program's name
/// decides, and `status` is meant where there is none. The two flags count wherever they stand.
pub proof fn law_command_line_is_read_in_order(args: Seq<String>)
    ensures
        ({
            let asked: Invocation = invocation(args);
            let help: bool = exists|i: int|
                0 <= i < args.len() && ((#[trigger] args[i])@ == "-h"@ || args[i]@ == "--help"@);
            let version: bool = exists|i: int|
                0 <= i < args.len() && ((#[trigger] args[i])@ == "-V"@ || args[i]@
                    == "--version"@);
            &&& asked.silent <==> exists|i: int|
                0 <= i < args.len() && (#[trigger] args[i])@ == "--silent"@
            &&& asked.force <==> exists|i: int|
                0 <= i < args.len() && (#[trigger] args[i])@ == "--force"@
            &&& help ==> asked.command == Command::Help
            &&& !help && version ==> asked.command == Command::Version
            &&& !help && !version && args.len() <= 1 ==> asked.command == Command::Status
            &&& !help && !version && args.len() > 1 ==> {
                let word: Seq<char> = args[1]@;
                &&& asked.command == Command::Enable <==> word == "enable"@
                &&& asked.command == Command::Disable <==> word == "disable"@
                &&& asked.command == Command::Status <==> word == "status"@
                &&& asked.command == Command::Test <==> word == "test"@
                &&& asked.command == Command::Log <==> word == "log"@
                &&& asked.command != Command::Version
            }
        }),
{
    reveal_strlit("enable");
    reveal_strlit("disable");
    reveal_strlit("status");
    reveal_strlit("test");
    reveal_strlit("log");
    assert("enable"@[0] == 'e' && "disable"@[0] == 'd' && "status"@[0] == 's' && "test"@[0] == 't'
        && "log"@[0] == 'l');
    let help: bool = exists|i: int|
        0 <= i < args.len() && ((#[trigger] args[i])@ == "-h"@ || args[i]@ == "--help"@);
    assert(help <==> has_arg(args, "-h"@) || has_arg(args, "--help"@));
    let version: bool = exists|i: int|
        0 <= i < args.len() && ((#[trigger] args[i])@ == "-V"@ || args[i]@ == "--version"@);
    assert(version <==> has_arg(args, "-V"@) || has_arg(args, "--version"@));
}

} // verus!
