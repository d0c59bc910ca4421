//! A new branch under the prefix that was used last.

use vstd::prelude::*;
use vstd::string::*;
use crate::app::{construct_full_branch_name, join_parts};
use crate::recency::{latest_first, sort_latest_first};
use crate::storage::{clone_branches, views, BranchInfo};
use crate::text::texts;

verus! {

/// The complaint about an empty store.
pub const NO_BRANCHES_YET: &'static str = "there are no branches yet";

/// Format new branch.
pub struct NewBranchWithLastPrefix {
    formatted_branch_name: String,
}

impl View for NewBranchWithLastPrefix {
    type V = Seq<char>;

    /// The name of the new branch.
    closed spec fn view(&self) -> Seq<char> {
        self.formatted_branch_name@
    }
}

impl NewBranchWithLastPrefix {
    /// Joins the arguments to the prefix of the latest of `branches`.
    pub fn new(branches: &Vec<BranchInfo>, args: &Vec<String>) -> (r: Result<
        NewBranchWithLastPrefix,
        String,
    >)
        ensures
            branches.len() == 0 ==> (r matches Err(message) && message@ == NO_BRANCHES_YET@),
            branches.len() > 0 ==> (r matches Ok(branch) && branch@ == join_parts(
                latest_first(views(branches@))[0].prefix,
                texts(args@),
            )),
    {
        let mut branches = clone_branches(branches);
        if branches.len() == 0 {
            return Err(NO_BRANCHES_YET.to_owned());
        }
        sort_latest_first(&mut branches);
        let formatted_branch_name = construct_full_branch_name(
            branches[0].prefix.as_str(),
            args.as_slice(),
        );
        Ok(NewBranchWithLastPrefix { formatted_branch_name })
    }

    /// The name of the new branch.
    pub fn formatted_branch_name(&self) -> (r: &str)
        ensures
            r@ == self@,
    {
        self.formatted_branch_name.as_str()
    }
}

} // verus!
