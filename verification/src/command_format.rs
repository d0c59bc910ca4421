//! Joining arguments into one branch name.

use vstd::prelude::*;
use vstd::string::*;
use vstd::slice::slice_subrange;
use crate::app::{construct_full_branch_name, join_parts};
use crate::text::texts;

verus! {

/// The `parts` joined by the separator; nothing where there are none.
pub open spec fn join_all(parts: Seq<Seq<char>>) -> Seq<char> {
    if parts.len() == 0 {
        Seq::empty()
    } else {
        join_parts(parts[0], parts.skip(1))
    }
}

/// Joins its arguments into one branch name.
pub struct FormatCommand {
    formatted: String,
}

impl View for FormatCommand {
    type V = Seq<char>;

    /// The text that the command prints.
    closed spec fn view(&self) -> Seq<char> {
        self.formatted@
    }
}

impl FormatCommand {
    /// The command that prints `args`, joined by the separator.
    pub fn new(args: &Vec<String>) -> (r: FormatCommand)
        ensures
            r@ == join_all(texts(args@)),
    {
        if args.len() == 0 {
            return FormatCommand { formatted: String::new() };
        }
        let rest = slice_subrange(args.as_slice(), 1, args.len());
        assert(texts(rest@) == texts(args@).skip(1));
        let formatted = construct_full_branch_name(args[0].as_str(), rest);
        FormatCommand { formatted }
    }

    /// The text that the command prints.
    pub fn formatted(&self) -> (r: &str)
        ensures
            r@ == self@,
    {
        self.formatted.as_str()
    }
}

} // verus!
