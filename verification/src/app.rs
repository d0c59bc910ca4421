//! The resolver and the driver: which branch a command line asks for, and what
//! becomes of the store once the branch was created.

use vstd::prelude::*;
use vstd::slice::slice_subrange;
use vstd::string::*;
use crate::args::Args;
use crate::prefix::{
    get_linear_prefix,
    lemma_linear_prefix_idempotent,
    lemma_linear_prefix_is_prefix,
    linear_prefix,
};
use crate::recency::{latest_first, sort_latest_first};
use crate::storage::{
    clone_branches,
    find,
    lemma_find,
    lemma_latest_first_same_records,
    lemma_trim_keeps_latest,
    lemma_trim_keeps_store_wf,
    lemma_upsert_keeps_store_wf,
    record_wf,
    store_wf,
    trim,
    upsert,
    views,
    BranchInfo,
    BranchView,
    Stored,
};
use crate::text::{same_text, texts};
use crate::title::{title, title_from_branch_name};

verus! {

/// The store's file, in the repository's top directory.
pub const DEFAULT_STORAGE_FILENAME: &'static str = ".git-linear-branch-meta.json";

/// How many records the store keeps.
pub const DEFAULT_LAST_BRANCHES_COUNT: usize = 5;

/// What joins the parts of a branch name.
pub const SEP: &'static str = "-";

/// The argument that asks to forget a branch.
pub const DELETE_FLAG: &'static str = "--delete";

/// The complaint about a prefix that comes without arguments.
pub const MISSING_ARGS: &'static str = "missing args";

/// The complaint about words that come without a prefix while the store is
/// empty.
pub const NO_BRANCHES_SAVED: &'static str = "no branches saved";

/// The complaint about what is not offered yet.
pub const NOT_IMPLEMENTED: &'static str = "not implemented";

/// The complaint about a branch that `git` did not create.
pub const CHECKOUT_FAILED: &'static str = "failed to checkout branch";

/// `head` and the `parts`, joined by the separator.
pub open spec fn join_parts(head: Seq<char>, parts: Seq<Seq<char>>) -> Seq<char>
    decreases parts.len(),
{
    if parts.len() == 0 {
        head
    } else {
        join_parts(head, parts.drop_last()) + SEP@ + parts.last()
    }
}

/// The record of the branch that the arguments `args` ask for, where `first`
/// is the argument that is looked at for a prefix.
///
/// Where `first` starts with a prefix, the branch goes under that prefix: a
/// single argument is the whole branch name, more arguments are joined to the
/// prefix. A record that the store holds under the prefix keeps its title; a
/// new record gets the title of `first`.
/// Where `first` starts with no prefix, all arguments are joined to the prefix
/// that was used last, and the record gets the title of the new name.
pub open spec fn checkout_plan(
    first: Seq<char>,
    args: Seq<Seq<char>>,
    store: Seq<BranchView>,
    now: int,
) -> Result<BranchView, Seq<char>> {
    match linear_prefix(first) {
        Some(prefix) => {
            let name = if args.len() == 1 {
                args[0]
            } else {
                join_parts(prefix, args.skip(1))
            };
            if args.len() == 0 {
                Err(MISSING_ARGS@)
            } else {
                match find(store, prefix) {
                    Some(branch) => Ok(
                        BranchView {
                            prefix: branch.prefix,
                            name,
                            last_used: now,
                            original_title: branch.original_title,
                        },
                    ),
                    None => Ok(
                        BranchView { prefix, name, last_used: now, original_title: title(first) },
                    ),
                }
            }
        },
        None => {
            if store.len() == 0 {
                Err(NO_BRANCHES_SAVED@)
            } else {
                let prefix = latest_first(store)[0].prefix;
                let name = join_parts(prefix, args);
                Ok(BranchView { prefix, name, last_used: now, original_title: title(name) })
            }
        },
    }
}

/// The record of the branch that the arguments `args` ask for at the instant
/// `now`, given the records `store`.
pub open spec fn resolve(args: Seq<Seq<char>>, store: Seq<BranchView>, now: int) -> Result<
    BranchView,
    Seq<char>,
>
    recommends
        args.len() > 0,
{
    checkout_plan(args[0], args, store, now)
}

/// Whether a command line with the help flag `help` and the arguments `args`
/// asks to forget a branch.
pub open spec fn asks_delete(help: bool, args: Seq<Seq<char>>) -> bool {
    !help && args.len() > 0 && args[0] == DELETE_FLAG@
}

/// Whether the answer to a command line depends on the store's records:
/// listing and checking out read them, the help text and the refusal to
/// forget a branch do not.
pub open spec fn reads_store(help: bool, args: Seq<Seq<char>>) -> bool {
    !help && !asks_delete(help, args)
}

/// Whether the answer to a command line depends on the instant: only a
/// checkout does.
pub open spec fn reads_clock(help: bool, args: Seq<Seq<char>>) -> bool {
    !help && args.len() > 0 && !asks_delete(help, args)
}

/// The lines that list the store: latest first, each a prefix, a tab and the
/// title.
pub open spec fn branch_lines(store: Seq<BranchView>) -> Seq<Seq<char>> {
    latest_first(store).map_values(|b: BranchView| b.prefix.push('\t') + b.original_title)
}

/// What the caller is to do next.
#[derive(Debug)]
pub enum Action {
    /// Print the help text.
    Help,
    /// Print these lines.
    List(Vec<String>),
    /// Create and check out the branch of this record, then record it.
    Checkout(BranchInfo),
}

/// The branch name made of `prefix` and the parts, joined by the separator.
pub fn construct_full_branch_name(prefix: &str, branch_name_parts: &[String]) -> (r: String)
    ensures
        r@ == join_parts(prefix@, texts(branch_name_parts@)),
{
    let mut r = prefix.to_owned();
    let mut i: usize = 0;
    while i < branch_name_parts.len()
        invariant
            i <= branch_name_parts.len(),
            r@ == join_parts(prefix@, texts(branch_name_parts@).take(i as int)),
        decreases branch_name_parts.len() - i,
    {
        r.append(SEP);
        r.append(branch_name_parts[i].as_str());
        i += 1;
        proof {
            let parts = texts(branch_name_parts@).take(i as int);
            assert(parts.drop_last() == texts(branch_name_parts@).take(i - 1));
            assert(parts.last() == branch_name_parts@[i - 1]@);
        }
    }
    assert(texts(branch_name_parts@).take(i as int) == texts(branch_name_parts@));
    r
}

/// The prefix that was used last; of several used at that instant, the one
/// that stands first in the store.
pub fn take_latest_prefix(branches: &Vec<BranchInfo>) -> (r: Result<String, String>)
    ensures
        branches.len() == 0 ==> (r matches Err(message) && message@ == NO_BRANCHES_SAVED@),
        branches.len() > 0 ==> (r matches Ok(prefix) && prefix@ == latest_first(
            views(branches@),
        )[0].prefix),
{
    let mut branches = clone_branches(branches);
    sort_latest_first(&mut branches);
    if branches.len() == 0 {
        Err(NO_BRANCHES_SAVED.to_owned())
    } else {
        Ok(branches[0].prefix.clone())
    }
}

/// Works out the record of the branch to create, see `checkout_plan`. The
/// store is left as it is: `record_checkout` updates it once the branch exists.
pub fn handle_checkout(first_arg: &str, args: &Args, stored: &Stored, now: i64) -> (r: Result<
    BranchInfo,
    String,
>)
    ensures
        match checkout_plan(first_arg@, texts(args.args@), stored@, now as int) {
            Ok(b) => r matches Ok(branch) && branch@ == b,
            Err(e) => r matches Err(message) && message@ == e,
        },
{
    match get_linear_prefix(first_arg) {
        Some(prefix) => {
            let count = args.args.len();
            if count == 0 {
                return Err(MISSING_ARGS.to_owned());
            }
            let full_branch_name = if count == 1 {
                args.args[0].clone()
            } else {
                let rest = slice_subrange(args.args.as_slice(), 1, count);
                assert(texts(rest@) == texts(args.args@).skip(1));
                construct_full_branch_name(prefix, rest)
            };
            match stored.get_by_prefix(prefix) {
                Some(branch) => Ok(
                    BranchInfo {
                        prefix: branch.prefix,
                        name: full_branch_name,
                        last_used: now,
                        original_title: branch.original_title,
                    },
                ),
                // Insert a new branch into the storage.
                None => Ok(
                    BranchInfo {
                        prefix: prefix.to_owned(),
                        name: full_branch_name,
                        last_used: now,
                        // The first argument is the branch name as the issue tracker
                        // gave it, and the title is to describe that branch.
                        original_title: title_from_branch_name(first_arg),
                    },
                ),
            }
        },
        None => {
            let branches = stored.list_branch_info();
            match take_latest_prefix(&branches) {
                Err(message) => Err(message),
                Ok(prefix) => {
                    let full_branch_name = construct_full_branch_name(
                        prefix.as_str(),
                        args.args.as_slice(),
                    );
                    let original_title = title_from_branch_name(full_branch_name.as_str());
                    Ok(
                        BranchInfo {
                            prefix,
                            name: full_branch_name,
                            last_used: now,
                            original_title,
                        },
                    )
                },
            }
        },
    }
}

/// Forgetting a branch is not offered yet.
pub fn handle_delete() -> (r: Result<Action, String>)
    ensures
        r matches Err(message) && message@ == NOT_IMPLEMENTED@,
{
    Err(NOT_IMPLEMENTED.to_owned())
}

/// The lines that list the store, see `branch_lines`.
pub fn list_branches(stored: &Stored) -> (r: Vec<String>)
    ensures
        texts(r@) == branch_lines(stored@),
{
    let mut branches = stored.list_branch_info();
    sort_latest_first(&mut branches);
    let mut lines: Vec<String> = Vec::new();
    let mut i: usize = 0;
    while i < branches.len()
        invariant
            i <= branches.len(),
            lines.len() == i,
            forall|k: int|
                0 <= k < i ==> (#[trigger] lines@[k])@ == branches@[k]@.prefix.push('\t')
                    + branches@[k]@.original_title,
        decreases branches.len() - i,
    {
        let mut line = branches[i].prefix.clone();
        line.push('\t');
        line.append(branches[i].original_title.as_str());
        lines.push(line);
        i += 1;
    }
    assert(texts(lines@) =~= branch_lines(stored@));
    lines
}

/// Whether `run` reads the store for this command line, see `reads_store`.
/// Where it does not, the store's file need not be read, and a file that
/// cannot be read stands in no one's way.
pub fn needs_store(args: &Args) -> (r: bool)
    ensures
        r == reads_store(args.help, texts(args.args@)),
{
    if args.help {
        return false;
    }
    if args.args.len() == 0 {
        return true;
    }
    !same_text(args.args[0].as_str(), DELETE_FLAG)
}

/// Whether `run` reads the instant for this command line, see `reads_clock`.
pub fn needs_clock(args: &Args) -> (r: bool)
    ensures
        r == reads_clock(args.help, texts(args.args@)),
{
    if args.help || args.args.len() == 0 {
        return false;
    }
    !same_text(args.args[0].as_str(), DELETE_FLAG)
}

/// Decides what a command line asks for: the help text, the list of the
/// store, or the branch that `handle_checkout` works out.
pub fn run(args: &Args, stored: &Stored, now: i64) -> (r: Result<Action, String>)
    ensures
        args.help ==> r matches Ok(Action::Help),
        !args.help && args.args.len() == 0 ==> (r matches Ok(Action::List(lines)) && texts(lines@)
            == branch_lines(stored@)),
        !args.help && args.args.len() > 0 && args.args[0]@ == DELETE_FLAG@ ==> (r matches Err(
            message,
        ) && message@ == NOT_IMPLEMENTED@),
        !args.help && args.args.len() > 0 && args.args[0]@ != DELETE_FLAG@ ==> match resolve(
            texts(args.args@),
            stored@,
            now as int,
        ) {
            Ok(b) => r matches Ok(Action::Checkout(branch)) && branch@ == b,
            Err(e) => r matches Err(message) && message@ == e,
        },
{
    if args.help {
        return Ok(Action::Help);
    }
    if args.args.len() == 0 {
        return Ok(Action::List(list_branches(stored)));
    }
    let first_arg = args.args[0].as_str();
    if same_text(first_arg, DELETE_FLAG) {
        handle_delete()
    } else {
        match handle_checkout(first_arg, args, stored, now) {
            Ok(branch) => Ok(Action::Checkout(branch)),
            Err(message) => Err(message),
        }
    }
}

/// Closes a checkout: where the branch was created, its record is stored and
/// the store is cut down to the latest records; where it was not, the store
/// stays as it is and the failure is reported.
pub fn record_checkout(stored: &mut Stored, branch: &BranchInfo, created: bool) -> (r: Result<
    (),
    String,
>)
    ensures
        created ==> r is Ok && final(stored)@ == trim(
            upsert(old(stored)@, branch@),
            DEFAULT_LAST_BRANCHES_COUNT as int,
        ),
        !created ==> *final(stored) == *old(stored) && (r matches Err(message) && message@
            == CHECKOUT_FAILED@),
{
    if !created {
        return Err(CHECKOUT_FAILED.to_owned());
    }
    stored.push_branch_info(branch);
    stored.trim_to_latest(DEFAULT_LAST_BRANCHES_COUNT);
    Ok(())
}

/// The path of the store's file in the repository whose top directory is `root`.
pub fn storage_file_path(root: &str) -> (r: String)
    ensures
        r@ == root@.push('/') + DEFAULT_STORAGE_FILENAME@,
{
    let mut r = root.to_owned();
    r.push('/');
    r.append(DEFAULT_STORAGE_FILENAME);
    r
}

/// A joined name starts with its head.
pub proof fn lemma_join_parts_starts_with_head(head: Seq<char>, parts: Seq<Seq<char>>)
    ensures
        head.is_prefix_of(join_parts(head, parts)),
    decreases parts.len(),
{
    if parts.len() > 0 {
        lemma_join_parts_starts_with_head(head, parts.drop_last());
    }
}

/// A record that the store holds under the prefix of the first argument keeps
/// its prefix and its title; only the name and the instant are new.
pub proof fn lemma_resolve_keeps_title(
    args: Seq<Seq<char>>,
    store: Seq<BranchView>,
    now: int,
    prefix: Seq<char>,
    stored: BranchView,
)
    requires
        args.len() > 0,
        linear_prefix(args[0]) == Some(prefix),
        find(store, prefix) == Some(stored),
    ensures
        resolve(args, store, now) matches Ok(b) && b.prefix == prefix && b.original_title
            == stored.original_title && b.last_used == now,
{
    lemma_find(store, prefix);
}

/// The record that is worked out from a well-formed store is well formed: its
/// prefix is a branch prefix, and its name starts with it.
pub proof fn lemma_resolve_record_wf(args: Seq<Seq<char>>, store: Seq<BranchView>, now: int)
    requires
        args.len() > 0,
        store_wf(store),
    ensures
        resolve(args, store, now) matches Ok(b) ==> record_wf(b),
{
    let first = args[0];
    match linear_prefix(first) {
        Some(prefix) => {
            lemma_linear_prefix_idempotent(first);
            lemma_linear_prefix_is_prefix(first);
            lemma_join_parts_starts_with_head(prefix, args.skip(1));
            lemma_find(store, prefix);
        },
        None => {
            if store.len() > 0 {
                crate::recency::lemma_latest_first_len(store);
                lemma_latest_first_same_records(store);
                let latest = latest_first(store)[0];
                assert(latest_first(store).contains(latest));
                assert(store.contains(latest));
                let at = choose|at: int| 0 <= at < store.len() && store[at] == latest;
                assert(record_wf(store[at]));
                lemma_join_parts_starts_with_head(latest.prefix, args);
            }
        },
    }
}

/// Recording the branch that was worked out keeps the store's invariant, and
/// leaves no more records than the store is to keep.
pub proof fn lemma_checkout_keeps_store_wf(args: Seq<Seq<char>>, store: Seq<BranchView>, now: int)
    requires
        args.len() > 0,
        store_wf(store),
    ensures
        resolve(args, store, now) matches Ok(b) ==> store_wf(
            trim(upsert(store, b), DEFAULT_LAST_BRANCHES_COUNT as int),
        ) && trim(upsert(store, b), DEFAULT_LAST_BRANCHES_COUNT as int).len()
            <= DEFAULT_LAST_BRANCHES_COUNT,
{
    match resolve(args, store, now) {
        Ok(b) => {
            lemma_resolve_record_wf(args, store, now);
            lemma_upsert_keeps_store_wf(store, b);
            lemma_trim_keeps_store_wf(upsert(store, b), DEFAULT_LAST_BRANCHES_COUNT as int);
            lemma_trim_keeps_latest(upsert(store, b), DEFAULT_LAST_BRANCHES_COUNT as int);
        },
        Err(_) => {},
    }
}

} // verus!
