//! Remembering a branch by name.

use vstd::prelude::*;
use vstd::string::*;
use crate::args::HELP_FLAG;
use crate::prefix::{get_linear_prefix, linear_prefix};
use crate::text::{same_text, texts};

verus! {

/// The help text, as it is printed.
pub const PUSH_HELP: &'static str = "Pass branch name to push.";

/// What stands before an argument that is one too many.
pub const UNKNOWN_PARAM: &'static str = "unknown param ";

/// The complaint about a command line without a branch name.
pub const BRANCH_MISSING: &'static str = "branch missing";

/// What `{:?}` shows of the string that holds `s`: what `<str as Debug>::fmt`
/// writes.
pub uninterp spec fn debug_form(s: Seq<char>) -> Seq<char>;

/// Calls `format!` with `{:?}`, which has `<str as Debug>::fmt` write `s`: the
/// text in quotes, with what is not printable escaped.
#[verifier::external_body]
fn debug_text(s: &str) -> (r: String)
    ensures
        r@ == debug_form(s@),
{
    format!("{:?}", s)
}

/// The complaint about an argument that is one too many; `shown` is the
/// argument as `{:?}` shows it.
pub fn unknown_param(shown: &str) -> (r: String)
    ensures
        r@ == UNKNOWN_PARAM@ + shown@,
{
    UNKNOWN_PARAM.to_owned().concat(shown)
}

/// The prefix that `branch_name` starts with; the name itself where it starts
/// with none.
pub open spec fn sanitized(branch_name: Seq<char>) -> Seq<char> {
    match linear_prefix(branch_name) {
        Some(prefix) => prefix,
        None => branch_name,
    }
}

/// The prefix that `branch_name` starts with; the name itself where it starts
/// with none.
pub fn sanitize_branch_name(branch_name: &str) -> (r: String)
    ensures
        r@ == sanitized(branch_name@),
{
    match get_linear_prefix(branch_name) {
        Some(prefix) => prefix.to_owned(),
        None => branch_name.to_owned(),
    }
}

/// What the command line of the command holds.
#[derive(Debug)]
pub struct PushCommandArgs {
    /// Whether the help text was asked for.
    pub help: bool,
    pub branch_name: String,
}

/// What the arguments from `at` on make of the branch name `found` so far: the
/// help flag ends the reading, a second name is an error, and so is the end
/// without a name.
pub open spec fn push_args(args: Seq<Seq<char>>, at: int, found: Option<Seq<char>>) -> Result<
    (bool, Seq<char>),
    Seq<char>,
>
    decreases args.len() - at,
{
    if at < 0 || at >= args.len() {
        match found {
            Some(branch_name) => Ok((false, branch_name)),
            None => Err(BRANCH_MISSING@),
        }
    } else if args[at] == HELP_FLAG@ {
        match found {
            Some(branch_name) => Ok((true, branch_name)),
            None => Ok((true, Seq::empty())),
        }
    } else if found is None {
        push_args(args, at + 1, Some(args[at]))
    } else {
        Err(UNKNOWN_PARAM@ + debug_form(args[at]))
    }
}

impl PushCommandArgs {
    /// Reads the arguments of the command, see `push_args`.
    pub fn from_args(args: &Vec<String>) -> (r: Result<PushCommandArgs, String>)
        ensures
            match push_args(texts(args@), 0, None) {
                Ok((help, branch_name)) => r matches Ok(parsed) && parsed.help == help
                    && parsed.branch_name@ == branch_name,
                Err(e) => r matches Err(message) && message@ == e,
            },
    {
        let mut branch_name: Option<String> = None;
        let mut i: usize = 0;
        while i < args.len()
            invariant
                i <= args.len(),
                push_args(texts(args@), 0, None) == push_args(
                    texts(args@),
                    i as int,
                    match branch_name {
                        Some(name) => Some(name@),
                        None => None,
                    },
                ),
            decreases args.len() - i,
        {
            assert(texts(args@)[i as int] == args@[i as int]@);
            if same_text(args[i].as_str(), HELP_FLAG) {
                return Ok(
                    match branch_name {
                        Some(name) => PushCommandArgs { help: true, branch_name: name },
                        None => PushCommandArgs { help: true, branch_name: String::new() },
                    },
                );
            } else if branch_name.is_none() {
                branch_name = Some(args[i].clone());
            } else {
                return Err(unknown_param(debug_text(args[i].as_str()).as_str()));
            }
            i += 1;
        }
        match branch_name {
            Some(name) => Ok(PushCommandArgs { help: false, branch_name: name }),
            None => Err(BRANCH_MISSING.to_owned()),
        }
    }
}

/// Memorize a branch prefix.
pub struct PushCommand {
    branch_name: String,
}

impl View for PushCommand {
    type V = Seq<char>;

    /// The name of the branch to remember.
    closed spec fn view(&self) -> Seq<char> {
        self.branch_name@
    }
}

impl PushCommand {
    /// The command that remembers the branch that `args` name, see `push_args`.
    pub fn from_args(args: &Vec<String>) -> (r: Result<PushCommand, String>)
        ensures
            match push_args(texts(args@), 0, None) {
                Ok((_, branch_name)) => r matches Ok(command) && command@ == branch_name,
                Err(e) => r matches Err(message) && message@ == e,
            },
    {
        match PushCommandArgs::from_args(args) {
            Ok(args) => Ok(PushCommand { branch_name: args.branch_name }),
            Err(message) => Err(message),
        }
    }

    /// The name of the branch to remember.
    pub fn branch_name(&self) -> (r: &str)
        ensures
            r@ == self@,
    {
        self.branch_name.as_str()
    }

    /// The prefix under which the branch is remembered.
    pub fn prefix(&self) -> (r: String)
        ensures
            r@ == sanitized(self@),
    {
        sanitize_branch_name(self.branch_name.as_str())
    }
}

} // verus!
