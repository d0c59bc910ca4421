//! The branch store: the records of recently used branches, one per prefix.

use vstd::prelude::*;
use vstd::string::*;
use crate::err::IO_ERROR;
use crate::prefix::is_linear_prefix;
use crate::recency::{latest_first, sort_latest_first};
use crate::text::same_text;
use vstd::std_specs::convert::FromSpecImpl;

verus! {

/// A branch that was created under a prefix.
#[derive(Debug)]
pub struct BranchInfo {
    /// Branch prefix.
    pub prefix: String,
    /// Full branch name.
    pub name: String,
    /// When the prefix was last used, in seconds since the Unix epoch.
    pub last_used: i64,
    /// A readable title describing the original branch.
    pub original_title: String,
}

/// What a branch record holds.
pub struct BranchView {
    pub prefix: Seq<char>,
    pub name: Seq<char>,
    pub last_used: int,
    pub original_title: Seq<char>,
}

impl View for BranchInfo {
    type V = BranchView;

    open spec fn view(&self) -> BranchView {
        BranchView {
            prefix: self.prefix@,
            name: self.name@,
            last_used: self.last_used as int,
            original_title: self.original_title@,
        }
    }
}

impl Clone for BranchInfo {
    fn clone(&self) -> (r: Self)
        ensures
            r == *self,
    {
        BranchInfo {
            prefix: self.prefix.clone(),
            name: self.name.clone(),
            last_used: self.last_used,
            original_title: self.original_title.clone(),
        }
    }
}

/// What a sequence of records holds.
pub open spec fn views(s: Seq<BranchInfo>) -> Seq<BranchView> {
    s.map_values(|b: BranchInfo| b@)
}

/// The first record of `s` under `prefix`.
pub open spec fn find(s: Seq<BranchView>, prefix: Seq<char>) -> Option<BranchView>
    decreases s.len(),
{
    if s.len() == 0 {
        None
    } else {
        match find(s.drop_last(), prefix) {
            Some(b) => Some(b),
            None => if s.last().prefix == prefix {
                Some(s.last())
            } else {
                None
            },
        }
    }
}

/// `s` with `r` in the place of each record under the prefix of `r`.
pub open spec fn replaced(s: Seq<BranchView>, r: BranchView) -> Seq<BranchView> {
    s.map_values(
        |b: BranchView|
            if b.prefix == r.prefix {
                r
            } else {
                b
            },
    )
}

/// `s` after `r` was stored: `r` stands in the place of the record under its
/// prefix, or at the end where there was none.
pub open spec fn upsert(s: Seq<BranchView>, r: BranchView) -> Seq<BranchView> {
    if find(s, r.prefix) is Some {
        replaced(s, r)
    } else {
        s.push(r)
    }
}

/// `s` cut down to its `n` most recently used records, latest first.
pub open spec fn trim(s: Seq<BranchView>, n: int) -> Seq<BranchView> {
    if n < s.len() {
        latest_first(s).take(n)
    } else {
        latest_first(s)
    }
}

/// No two records share a prefix.
pub open spec fn unique_prefixes(s: Seq<BranchView>) -> bool {
    forall|i: int, j: int| 0 <= i < j < s.len() ==> s[i].prefix != s[j].prefix
}

/// The record's prefix is a branch prefix, and its name starts with it.
pub open spec fn record_wf(b: BranchView) -> bool {
    is_linear_prefix(b.prefix) && b.prefix.is_prefix_of(b.name)
}

/// The store's invariant: one well-formed record per prefix.
pub open spec fn store_wf(s: Seq<BranchView>) -> bool {
    unique_prefixes(s) && forall|i: int| 0 <= i < s.len() ==> record_wf(#[trigger] s[i])
}

/// The store document: the records in the order in which their prefixes came.
/// A document without records and one with an empty list are the same store.
pub struct Stored {
    pub branches: Option<Vec<BranchInfo>>,
}

impl View for Stored {
    type V = Seq<BranchView>;

    open spec fn view(&self) -> Seq<BranchView> {
        match self.branches {
            Some(branches) => views(branches@),
            None => Seq::empty(),
        }
    }
}

/// A copy of `branches`.
pub fn clone_branches(branches: &Vec<BranchInfo>) -> (r: Vec<BranchInfo>)
    ensures
        r@ == branches@,
{
    let mut r: Vec<BranchInfo> = Vec::new();
    let mut i: usize = 0;
    while i < branches.len()
        invariant
            i <= branches.len(),
            r@ == branches@.take(i as int),
        decreases branches.len() - i,
    {
        r.push(branches[i].clone());
        i += 1;
    }
    r
}

impl Stored {
    /// Prefix is the key. If there is a branch with the same prefix, then replace the existing
    /// branch with the new branch; else add the new branch at the end.
    pub fn push_branch_info(&mut self, info: &BranchInfo)
        ensures
            final(self)@ == upsert(old(self)@, info@),
            final(self).branches is Some,
    {
        let mut branches = match self.branches.take() {
            Some(branches) => branches,
            None => Vec::new(),
        };
        let ghost before = views(branches@);
        let mut found_existing_with_same_prefix = false;
        let mut i: usize = 0;
        while i < branches.len()
            invariant
                i <= branches.len(),
                branches.len() == before.len(),
                found_existing_with_same_prefix == (find(before.take(i as int), info@.prefix)
                    is Some),
                forall|k: int|
                    0 <= k < i ==> #[trigger] branches@[k]@ == replaced(before, info@)[k],
                forall|k: int| i <= k < before.len() ==> #[trigger] branches@[k]@ == before[k],
            decreases branches.len() - i,
        {
            assert(before.take(i + 1).drop_last() == before.take(i as int));
            assert(before.take(i + 1).last() == before[i as int]);
            assert(branches@[i as int]@ == before[i as int]);
            let ghost current = branches@;
            if branches[i].prefix == info.prefix {
                found_existing_with_same_prefix = true;
                branches[i] = info.clone();
            }
            assert forall|k: int| 0 <= k < i implies #[trigger] branches@[k]@ == replaced(
                before,
                info@,
            )[k] by {
                assert(branches@[k] == current[k]);
            }
            assert forall|k: int| i < k < before.len() implies #[trigger] branches@[k]@
                == before[k] by {
                assert(branches@[k] == current[k]);
            }
            i += 1;
        }
        assert(before.take(i as int) == before);
        if !found_existing_with_same_prefix {
            proof {
                lemma_find(before, info@.prefix);
                assert(replaced(before, info@) =~= before);
            }
            branches.push(info.clone());
        }
        assert(views(branches@) =~= upsert(before, info@));
        self.branches = Some(branches);
    }

    /// Puts `info` in the place of all records.
    pub fn replace_branch_info(&mut self, info: &Vec<BranchInfo>)
        ensures
            final(self)@ == views(info@),
            final(self).branches is Some,
    {
        self.branches = Some(clone_branches(info));
    }

    /// All records, in the store's order.
    pub fn list_branch_info(&self) -> (r: Vec<BranchInfo>)
        ensures
            views(r@) == self@,
    {
        match &self.branches {
            Some(info_list) => clone_branches(info_list),
            None => Vec::new(),
        }
    }

    /// Keeps the `n` most recently used records, latest first. A document
    /// without records is left as it is; the result says whether the document
    /// is to be written back.
    pub fn trim_to_latest(&mut self, n: usize) -> (write: bool)
        ensures
            final(self)@ == trim(old(self)@, n as int),
            write == (old(self).branches is Some),
            (final(self).branches is Some) == (old(self).branches is Some),
    {
        match self.branches.take() {
            None => false,
            Some(mut branches) => {
                sort_latest_first(&mut branches);
                branches.truncate(n);
                self.branches = Some(branches);
                true
            },
        }
    }

    /// The first record under `prefix`.
    pub fn get_by_prefix(&self, prefix: &str) -> (r: Option<BranchInfo>)
        ensures
            r is Some <==> find(self@, prefix@) is Some,
            r matches Some(b) ==> find(self@, prefix@) == Some(b@),
    {
        match &self.branches {
            Some(branches) => find_branch(branches, prefix),
            None => None,
        }
    }
}

/// The first record of `branches` under `prefix`.
pub fn find_branch(branches: &Vec<BranchInfo>, prefix: &str) -> (r: Option<BranchInfo>)
    ensures
        r is Some <==> find(views(branches@), prefix@) is Some,
        r matches Some(b) ==> find(views(branches@), prefix@) == Some(b@),
{
    let mut i: usize = 0;
    while i < branches.len()
        invariant
            i <= branches.len(),
            find(views(branches@).take(i as int), prefix@) is None,
        decreases branches.len() - i,
    {
        assert(views(branches@).take(i + 1).drop_last() == views(branches@).take(i as int));
        assert(views(branches@).take(i + 1).last() == branches@[i as int]@);
        if same_text(branches[i].prefix.as_str(), prefix) {
            proof {
                lemma_find_take(views(branches@), prefix@, i + 1);
            }
            return Some(branches[i].clone());
        }
        i += 1;
    }
    assert(views(branches@).take(i as int) == views(branches@));
    None
}

/// `serde_json::Error`, taken as it comes: only its text is read.
#[verifier::external_type_specification]
#[verifier::external_body]
pub struct ExJsonError(serde_json::Error);

/// What stands before the text of a document that could not be read.
pub const JSON_ERROR: &'static str = "JSON error: ";

/// Why the store could not be read or written.
pub struct StorageError {
    message: String,
}

impl View for StorageError {
    type V = Seq<char>;

    closed spec fn view(&self) -> Seq<char> {
        self.message@
    }
}

impl StorageError {
    /// The error that shows `message`.
    pub fn new(message: &str) -> (r: StorageError)
        ensures
            r@ == message@,
    {
        StorageError { message: message.to_owned() }
    }

    /// The store's file could not be read or written; `detail` says why.
    pub fn io(detail: &str) -> (r: StorageError)
        ensures
            r@ == IO_ERROR@ + detail@,
    {
        StorageError { message: IO_ERROR.to_owned().concat(detail) }
    }

    /// The store's file does not hold a store document; `detail` says where.
    pub fn json(detail: &str) -> (r: StorageError)
        ensures
            r@ == JSON_ERROR@ + detail@,
    {
        StorageError { message: JSON_ERROR.to_owned().concat(detail) }
    }
}

impl From<String> for StorageError {
    fn from(value: String) -> (r: Self)
        ensures
            r@ == value@,
    {
        StorageError { message: value }
    }
}

impl FromSpecImpl<String> for StorageError {
    open spec fn obeys_from_spec() -> bool {
        true
    }

    closed spec fn from_spec(value: String) -> Self {
        StorageError { message: value }
    }
}

impl From<std::io::Error> for StorageError {
    /// The error that shows the text of `value` behind its prefix.
    fn from(value: std::io::Error) -> (r: Self)
        ensures
            exists|text: String| #[trigger]
                vstd::string::to_string_from_display_ensures::<std::io::Error>(
                    &value,
                    text,
                ) && r@ == IO_ERROR@ + text@,
    {
        let text = value.to_string();
        StorageError::io(text.as_str())
    }
}

impl FromSpecImpl<std::io::Error> for StorageError {
    /// The text is what `to_string` gives for the error, which vstd states as a
    /// relation and not as a function: `from` carries its own clause.
    open spec fn obeys_from_spec() -> bool {
        false
    }

    open spec fn from_spec(value: std::io::Error) -> Self {
        arbitrary()
    }
}

impl From<serde_json::Error> for StorageError {
    /// The error that shows the text of `value` behind its prefix.
    fn from(value: serde_json::Error) -> (r: Self)
        ensures
            exists|text: String| #[trigger]
                vstd::string::to_string_from_display_ensures::<serde_json::Error>(
                    &value,
                    text,
                ) && r@ == JSON_ERROR@ + text@,
    {
        let text = value.to_string();
        StorageError::json(text.as_str())
    }
}

impl FromSpecImpl<serde_json::Error> for StorageError {
    /// The text is what `to_string` gives for the error, which vstd states as a
    /// relation and not as a function: `from` carries its own clause.
    open spec fn obeys_from_spec() -> bool {
        false
    }

    open spec fn from_spec(value: serde_json::Error) -> Self {
        arbitrary()
    }
}

impl From<StorageError> for String {
    fn from(value: StorageError) -> (r: Self)
        ensures
            r@ == value@,
    {
        value.message
    }
}

impl FromSpecImpl<StorageError> for String {
    open spec fn obeys_from_spec() -> bool {
        true
    }

    closed spec fn from_spec(value: StorageError) -> Self {
        value.message
    }
}

/// The store kept as a JSON document in one file.
pub struct JsonStorage {
    filepath: String,
}

impl View for JsonStorage {
    type V = Seq<char>;

    /// The path of the file.
    closed spec fn view(&self) -> Seq<char> {
        self.filepath@
    }
}

impl JsonStorage {
    /// The store in the file at `filepath`. The file is not touched.
    pub fn new(filepath: &str) -> (r: Result<JsonStorage, String>)
        ensures
            r matches Ok(storage) && storage@ == filepath@,
    {
        Ok(JsonStorage { filepath: filepath.to_owned() })
    }

    /// The path of the file that holds the document.
    pub fn filepath(&self) -> (r: &str)
        ensures
            r@ == self@,
    {
        self.filepath.as_str()
    }
}

/// A record found among the first `n` is the one found among all.
pub proof fn lemma_find_take(s: Seq<BranchView>, prefix: Seq<char>, n: int)
    requires
        0 <= n <= s.len(),
        find(s.take(n), prefix) is Some,
    ensures
        find(s, prefix) == find(s.take(n), prefix),
    decreases s.len() - n,
{
    if n < s.len() {
        assert(s.take(n + 1).drop_last() == s.take(n));
        lemma_find_take(s, prefix, n + 1);
    } else {
        assert(s.take(n) == s);
    }
}

/// What `find` finds is the first record under the prefix; it finds none only
/// where there is none.
pub proof fn lemma_find(s: Seq<BranchView>, prefix: Seq<char>)
    ensures
        find(s, prefix) is None ==> forall|k: int|
            0 <= k < s.len() ==> (#[trigger] s[k]).prefix != prefix,
        find(s, prefix) matches Some(b) ==> exists|at: int|
            0 <= at < s.len() && #[trigger] s[at] == b && b.prefix == prefix && forall|k: int|
                0 <= k < at ==> (#[trigger] s[k]).prefix != prefix,
    decreases s.len(),
{
    if s.len() > 0 {
        let init = s.drop_last();
        lemma_find(init, prefix);
        assert forall|k: int| 0 <= k < init.len() implies #[trigger] init[k] == s[k] by {}
        match find(init, prefix) {
            Some(b) => {
                let at = choose|at: int|
                    0 <= at < init.len() && #[trigger] init[at] == b && b.prefix == prefix
                        && forall|k: int| 0 <= k < at ==> (#[trigger] init[k]).prefix != prefix;
                assert(s[at] == b);
                assert forall|k: int| 0 <= k < at implies (#[trigger] s[k]).prefix != prefix by {
                    assert(init[k] == s[k]);
                }
            },
            None => {
                assert forall|k: int| 0 <= k < init.len() implies (#[trigger] s[k]).prefix
                    != prefix by {
                    assert(init[k] == s[k]);
                }
                if s.last().prefix == prefix {
                    assert(s[s.len() - 1] == s.last());
                }
            },
        }
    }
}

/// After a record was stored, exactly one record has its prefix, and it is the
/// record that was stored. The result is its place.
pub proof fn lemma_upsert_holds_once(s: Seq<BranchView>, r: BranchView) -> (at: int)
    requires
        unique_prefixes(s),
    ensures
        unique_prefixes(upsert(s, r)),
        0 <= at < upsert(s, r).len(),
        upsert(s, r)[at] == r,
        forall|k: int|
            0 <= k < upsert(s, r).len() && k != at ==> (#[trigger] upsert(s, r)[k]).prefix
                != r.prefix,
{
    lemma_find(s, r.prefix);
    let u = upsert(s, r);
    match find(s, r.prefix) {
        Some(b) => {
            let at = choose|at: int|
                0 <= at < s.len() && #[trigger] s[at] == b && b.prefix == r.prefix && forall|k: int|
                    0 <= k < at ==> (#[trigger] s[k]).prefix != r.prefix;
            assert forall|k: int| 0 <= k < u.len() && k != at implies (#[trigger] u[k]).prefix
                != r.prefix by {
                if k < at {
                    assert(s[k].prefix != s[at].prefix);
                } else {
                    assert(s[at].prefix != s[k].prefix);
                }
            }
            assert forall|i: int, j: int| 0 <= i < j < u.len() implies u[i].prefix
                != u[j].prefix by {
                assert(s[i].prefix != s[j].prefix);
            }
            at
        },
        None => {
            assert forall|i: int, j: int| 0 <= i < j < u.len() implies u[i].prefix
                != u[j].prefix by {
                if j < s.len() {
                    assert(s[i].prefix != s[j].prefix);
                } else {
                    assert(s[i].prefix != r.prefix);
                }
            }
            s.len() as int
        },
    }
}

/// A record that was stored is the one found under its prefix.
pub proof fn lemma_upsert_then_find(s: Seq<BranchView>, r: BranchView)
    ensures
        find(upsert(s, r), r.prefix) == Some(r),
{
    let u = upsert(s, r);
    lemma_find(s, r.prefix);
    lemma_find(u, r.prefix);
    match find(s, r.prefix) {
        Some(b) => {
            let at = choose|at: int|
                0 <= at < s.len() && #[trigger] s[at] == b && b.prefix == r.prefix && forall|k: int|
                    0 <= k < at ==> (#[trigger] s[k]).prefix != r.prefix;
            assert(u[at] == r);
            assert(find(u, r.prefix) is Some);
            let found = choose|found: int|
                0 <= found < u.len() && #[trigger] u[found] == find(u, r.prefix)->0
                    && forall|k: int| 0 <= k < found ==> (#[trigger] u[k]).prefix != r.prefix;
            if found < at {
                assert(s[found].prefix != r.prefix);
                assert(u[found] == s[found]);
            } else if found > at {
                assert(u[at].prefix != r.prefix);
            }
        },
        None => {
            assert(u[s.len() as int] == r);
            assert(find(u, r.prefix) is Some);
            let found = choose|found: int|
                0 <= found < u.len() && #[trigger] u[found] == find(u, r.prefix)->0
                    && forall|k: int| 0 <= k < found ==> (#[trigger] u[k]).prefix != r.prefix;
            if found < s.len() {
                assert(s[found].prefix != r.prefix);
                assert(u[found] == s[found]);
            }
        },
    }
}

/// Storing a well-formed record keeps the store's invariant.
pub proof fn lemma_upsert_keeps_store_wf(s: Seq<BranchView>, r: BranchView)
    requires
        store_wf(s),
        record_wf(r),
    ensures
        store_wf(upsert(s, r)),
{
    let at = lemma_upsert_holds_once(s, r);
    let u = upsert(s, r);
    assert forall|i: int| 0 <= i < u.len() implies record_wf(#[trigger] u[i]) by {
        if i < s.len() {
            assert(record_wf(s[i]));
        }
    }
}

/// A record of the ordered sequence is a record of the store, and the other
/// way round.
pub proof fn lemma_latest_first_same_records(s: Seq<BranchView>)
    ensures
        forall|b: BranchView| latest_first(s).contains(b) <==> s.contains(b),
{
    crate::recency::lemma_latest_first_permutes(s);
    s.to_multiset_ensures();
    latest_first(s).to_multiset_ensures();
    assert forall|b: BranchView| latest_first(s).contains(b) <==> s.contains(b) by {
        assert(latest_first(s).to_multiset().count(b) == s.to_multiset().count(b));
    }
}

/// Ordering keeps the prefixes apart.
pub proof fn lemma_latest_first_unique(s: Seq<BranchView>)
    requires
        unique_prefixes(s),
    ensures
        unique_prefixes(latest_first(s)),
    decreases s.len(),
{
    if s.len() > 0 {
        let init = s.drop_last();
        let r = s.last();
        let sorted = latest_first(init);
        assert forall|i: int, j: int| 0 <= i < j < init.len() implies init[i].prefix
            != init[j].prefix by {
            assert(s[i].prefix != s[j].prefix);
        }
        lemma_latest_first_unique(init);
        lemma_latest_first_same_records(init);
        crate::recency::lemma_slot(sorted, r.last_used, 0);
        let at = crate::recency::slot(sorted, r.last_used, 0);
        let out = sorted.insert(at, r);
        assert forall|k: int| 0 <= k < sorted.len() implies (#[trigger] sorted[k]).prefix
            != r.prefix by {
            assert(sorted.contains(sorted[k]));
            assert(init.contains(sorted[k]));
            let w = choose|w: int| 0 <= w < init.len() && init[w] == sorted[k];
            assert(s[w].prefix != s[s.len() - 1].prefix);
        }
        assert forall|i: int, j: int| 0 <= i < j < out.len() implies out[i].prefix
            != out[j].prefix by {
            if i == at {
                assert(out[j] == sorted[j - 1]);
            } else if j == at {
                assert(out[i] == sorted[i]);
            } else if j < at {
                assert(out[i] == sorted[i] && out[j] == sorted[j]);
            } else if i < at {
                assert(out[i] == sorted[i] && out[j] == sorted[j - 1]);
            } else {
                assert(out[i] == sorted[i - 1] && out[j] == sorted[j - 1]);
            }
        }
    }
}

/// Trimming keeps at most `n` records, and keeps the latest: the records kept
/// and the records dropped are together the records of the store, and no
/// record dropped was used later than a record kept.
pub proof fn lemma_trim_keeps_latest(s: Seq<BranchView>, n: int)
    requires
        0 <= n,
    ensures
        trim(s, n).len() <= n,
        trim(s, n).len() == if n < s.len() {
            n
        } else {
            s.len() as int
        },
        trim(s, n) + latest_first(s).skip(trim(s, n).len() as int) == latest_first(s),
        latest_first(s).to_multiset() == s.to_multiset(),
        forall|i: int, j: int|
            0 <= i < trim(s, n).len() <= j < s.len() ==> (#[trigger] trim(s, n)[i]).last_used >= (
            #[trigger] latest_first(s)[j]).last_used,
{
    crate::recency::lemma_latest_first_len(s);
    crate::recency::lemma_latest_first_ordered(s);
    crate::recency::lemma_latest_first_permutes(s);
    let sorted = latest_first(s);
    assert forall|i: int, j: int| 0 <= i < trim(s, n).len() <= j < s.len() implies (
    #[trigger] trim(s, n)[i]).last_used >= (#[trigger] latest_first(s)[j]).last_used by {
        assert(trim(s, n)[i] == sorted[i]);
        assert(sorted[i].last_used >= sorted[j].last_used);
    }
    assert(trim(s, n) + sorted.skip(trim(s, n).len() as int) =~= sorted);
}

/// Trimming keeps the store's invariant.
pub proof fn lemma_trim_keeps_store_wf(s: Seq<BranchView>, n: int)
    requires
        0 <= n,
        store_wf(s),
    ensures
        store_wf(trim(s, n)),
{
    crate::recency::lemma_latest_first_len(s);
    lemma_latest_first_unique(s);
    lemma_latest_first_same_records(s);
    let sorted = latest_first(s);
    let t = trim(s, n);
    assert forall|i: int| 0 <= i < t.len() implies record_wf(#[trigger] t[i]) by {
        assert(t[i] == sorted[i]);
        assert(sorted.contains(sorted[i]));
        assert(s.contains(t[i]));
        let w = choose|w: int| 0 <= w < s.len() && s[w] == t[i];
        assert(record_wf(s[w]));
    }
    assert forall|i: int, j: int| 0 <= i < j < t.len() implies t[i].prefix != t[j].prefix by {
        assert(sorted[i].prefix != sorted[j].prefix);
    }
}

} // verus!
