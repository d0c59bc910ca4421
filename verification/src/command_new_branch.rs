//! A new branch under the prefix of its first argument.

use vstd::prelude::*;
use vstd::string::*;
use vstd::slice::slice_subrange;
use crate::app::{construct_full_branch_name, join_parts};
use crate::command_push::{sanitize_branch_name, sanitized};
use crate::text::texts;

verus! {

/// The complaint about a command line without arguments.
pub const NO_ARGUMENTS: &'static str = "no arguments for branch";

/// Format new branch.
pub struct NewBranch {
    prefix: String,
    formatted_branch_name: String,
}

/// What a new branch holds.
pub struct NewBranchView {
    pub prefix: Seq<char>,
    pub formatted_branch_name: Seq<char>,
}

impl View for NewBranch {
    type V = NewBranchView;

    closed spec fn view(&self) -> NewBranchView {
        NewBranchView {
            prefix: self.prefix@,
            formatted_branch_name: self.formatted_branch_name@,
        }
    }
}

impl NewBranch {
    /// Treat the first arg as a branch prefix.
    pub fn new(args: &Vec<String>) -> (r: Result<NewBranch, String>)
        ensures
            args.len() == 0 ==> (r matches Err(message) && message@ == NO_ARGUMENTS@),
            args.len() > 0 ==> (r matches Ok(branch) && branch@.prefix == sanitized(args@[0]@)
                && branch@.formatted_branch_name == join_parts(
                sanitized(args@[0]@),
                texts(args@).skip(1),
            )),
    {
        if args.len() == 0 {
            return Err(NO_ARGUMENTS.to_owned());
        }
        let prefix = sanitize_branch_name(args[0].as_str());
        let rest = slice_subrange(args.as_slice(), 1, args.len());
        assert(texts(rest@) == texts(args@).skip(1));
        let formatted_branch_name = construct_full_branch_name(prefix.as_str(), rest);
        Ok(NewBranch { prefix, formatted_branch_name })
    }

    /// The prefix that the branch goes under.
    pub fn prefix(&self) -> (r: &str)
        ensures
            r@ == self@.prefix,
    {
        self.prefix.as_str()
    }

    /// The name of the new branch.
    pub fn formatted_branch_name(&self) -> (r: &str)
        ensures
            r@ == self@.formatted_branch_name,
    {
        self.formatted_branch_name.as_str()
    }
}

} // verus!
