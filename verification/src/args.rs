//! The command line, split into the help flag and the positional arguments.

use vstd::prelude::*;
use vstd::string::*;
use crate::text::{same_text, texts};

verus! {

/// The command that makes a branch under the prefix of its first argument.
pub const COMMAND_BRANCH: &'static str = "branch";

/// The command that lists the store.
pub const COMMAND_LIST: &'static str = "list";

/// The command that makes a branch under the prefix that was used last.
pub const COMMAND_NEW_BRANCH_WITH_LAST_PREFIX: &'static str = "new-branch-with-last-prefix";

/// The flag that asks for the help text.
pub const HELP_FLAG: &'static str = "-h";

/// The help text, as it is printed.
pub const HELP: &'static str = "Utility to create branch names from past linear branch names.
Commands
\tbranch (default)
\tlist

-h\tThis help.";

/// What the command line holds.
#[derive(Debug)]
pub struct Args {
    /// Whether the help text was asked for.
    pub help: bool,
    /// Remaining unparsed args
    pub args: Vec<String>,
}

/// Whether the command line `argv`, which starts with the program's name, asks
/// for help: the flag must be the first argument.
pub open spec fn asks_help(argv: Seq<Seq<char>>) -> bool {
    argv.len() > 1 && argv[1] == HELP_FLAG@
}

/// The positional arguments of the command line `argv`: none where it asks for
/// help, else all that follows the program's name.
pub open spec fn positional(argv: Seq<Seq<char>>) -> Seq<Seq<char>> {
    if asks_help(argv) || argv.len() == 0 {
        Seq::empty()
    } else {
        argv.skip(1)
    }
}

impl Args {
    /// Splits the command line `args`, which starts with the program's name.
    /// Where the first argument is the help flag nothing else is read; else
    /// every argument is positional, a later `-h` too.
    pub fn from_args(args: &Vec<String>) -> (r: Result<Args, String>)
        ensures
            r matches Ok(parsed) && parsed.help == asks_help(texts(args@)) && texts(parsed.args@)
                == positional(texts(args@)),
    {
        let mut output = Args { help: false, args: Vec::new() };
        if args.len() < 2 {
            return Ok(output);
        }
        if same_text(args[1].as_str(), HELP_FLAG) {
            output.help = true;
            return Ok(output);
        }
        let mut rest: Vec<String> = Vec::new();
        let mut i: usize = 1;
        while i < args.len()
            invariant
                1 <= i <= args.len(),
                rest.len() == i - 1,
                forall|k: int| 0 <= k < rest.len() ==> (#[trigger] rest@[k])@ == args@[k + 1]@,
            decreases args.len() - i,
        {
            rest.push(args[i].clone());
            i += 1;
        }
        assert(texts(rest@) =~= texts(args@).skip(1));
        output.args = rest;
        Ok(output)
    }
}

/// Whether `s` names a command.
pub fn is_legal_command(s: &str) -> (r: bool)
    ensures
        r == (s@ == COMMAND_BRANCH@ || s@ == COMMAND_LIST@ || s@
            == COMMAND_NEW_BRANCH_WITH_LAST_PREFIX@),
{
    same_text(s, COMMAND_BRANCH) || same_text(s, COMMAND_LIST) || same_text(
        s,
        COMMAND_NEW_BRANCH_WITH_LAST_PREFIX,
    )
}

} // verus!
