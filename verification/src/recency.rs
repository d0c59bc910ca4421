//! Ordering records by recency: the most recently used first.

use vstd::prelude::*;
use crate::storage::{views, BranchInfo, BranchView};

verus! {

/// The place of a record used at `t` in `s`, which is ordered latest first:
/// behind every record used at `t` or later, counted from `from`.
pub open spec fn slot(s: Seq<BranchView>, t: int, from: int) -> int
    decreases s.len() - from,
{
    if 0 <= from < s.len() && s[from].last_used >= t {
        slot(s, t, from + 1)
    } else {
        from
    }
}

/// The records of `s` ordered by `last_used`, latest first. Records used at the
/// same instant keep the order that they have in `s`.
pub open spec fn latest_first(s: Seq<BranchView>) -> Seq<BranchView>
    decreases s.len(),
{
    if s.len() == 0 {
        s
    } else {
        let sorted = latest_first(s.drop_last());
        sorted.insert(slot(sorted, s.last().last_used, 0), s.last())
    }
}

/// Whether each record of `s` was used no earlier than those behind it.
pub open spec fn is_latest_first(s: Seq<BranchView>) -> bool {
    forall|i: int, j: int| 0 <= i <= j < s.len() ==> s[i].last_used >= s[j].last_used
}

/// A slot lies within the sequence, behind records used at `t` or later, and
/// before a record used earlier.
pub proof fn lemma_slot(s: Seq<BranchView>, t: int, from: int)
    requires
        0 <= from <= s.len(),
    ensures
        from <= slot(s, t, from) <= s.len(),
        forall|k: int| from <= k < slot(s, t, from) ==> (#[trigger] s[k]).last_used >= t,
        slot(s, t, from) < s.len() ==> s[slot(s, t, from)].last_used < t,
    decreases s.len() - from,
{
    if from < s.len() && s[from].last_used >= t {
        lemma_slot(s, t, from + 1);
    }
}

/// Ordering keeps the number of records.
pub proof fn lemma_latest_first_len(s: Seq<BranchView>)
    ensures
        latest_first(s).len() == s.len(),
    decreases s.len(),
{
    if s.len() > 0 {
        lemma_latest_first_len(s.drop_last());
        lemma_slot(latest_first(s.drop_last()), s.last().last_used, 0);
    }
}

/// The records come out latest first.
pub proof fn lemma_latest_first_ordered(s: Seq<BranchView>)
    ensures
        is_latest_first(latest_first(s)),
    decreases s.len(),
{
    if s.len() > 0 {
        let sorted = latest_first(s.drop_last());
        let r = s.last();
        let at = slot(sorted, r.last_used, 0);
        lemma_latest_first_ordered(s.drop_last());
        lemma_slot(sorted, r.last_used, 0);
        let out = sorted.insert(at, r);
        assert forall|i: int, j: int| 0 <= i <= j < out.len() implies out[i].last_used
            >= out[j].last_used by {
            if i < at && j > at {
                assert(out[i] == sorted[i]);
                assert(out[j] == sorted[j - 1]);
                assert(sorted[i].last_used >= sorted[at].last_used);
                assert(sorted[at].last_used >= sorted[j - 1].last_used);
            } else if i < at && j < at {
                assert(out[i] == sorted[i] && out[j] == sorted[j]);
            } else if i > at {
                assert(out[i] == sorted[i - 1] && out[j] == sorted[j - 1]);
            } else if i == at && j > at {
                assert(out[j] == sorted[j - 1]);
                assert(sorted[at].last_used >= sorted[j - 1].last_used);
            } else if i < at && j == at {
                assert(out[i] == sorted[i]);
            }
        }
    }
}

/// Ordering neither adds nor loses a record.
pub proof fn lemma_latest_first_permutes(s: Seq<BranchView>)
    ensures
        latest_first(s).to_multiset() == s.to_multiset(),
    decreases s.len(),
{
    broadcast use vstd::seq_lib::group_to_multiset_ensures;

    if s.len() > 0 {
        let sorted = latest_first(s.drop_last());
        lemma_latest_first_permutes(s.drop_last());
        lemma_slot(sorted, s.last().last_used, 0);
        assert(s.drop_last().push(s.last()) == s);
    }
}

/// The records of `s` that were used at the instant `t`, in the order of `s`.
pub open spec fn used_at(s: Seq<BranchView>, t: int) -> Seq<BranchView> {
    s.filter(|b: BranchView| b.last_used == t)
}

/// Where no record of `s` was used at `t`, `used_at` holds nothing.
proof fn lemma_used_at_none(s: Seq<BranchView>, t: int)
    requires
        forall|k: int| 0 <= k < s.len() ==> (#[trigger] s[k]).last_used != t,
    ensures
        used_at(s, t).len() == 0,
{
    let pred = |b: BranchView| b.last_used == t;
    if s.filter(pred).len() > 0 {
        let b = s.filter(pred)[0];
        s.lemma_filter_pred(pred, 0);
        assert(s.filter(pred).contains(b));
        s.lemma_filter_contains_rev(pred, b);
        let k = choose|k: int| 0 <= k < s.len() && s[k] == b;
        assert(s[k].last_used != t);
    }
}

/// Ordering is stable: the records used at one instant keep the order that
/// they have in the store.
pub proof fn lemma_latest_first_stable(s: Seq<BranchView>, t: int)
    ensures
        used_at(latest_first(s), t) == used_at(s, t),
    decreases s.len(),
{
    if s.len() > 0 {
        let pred = |b: BranchView| b.last_used == t;
        let init = s.drop_last();
        let r = s.last();
        let sorted = latest_first(init);
        let at = slot(sorted, r.last_used, 0);
        lemma_latest_first_stable(init, t);
        lemma_latest_first_ordered(init);
        lemma_slot(sorted, r.last_used, 0);
        let front = sorted.take(at);
        let back = sorted.skip(at);
        assert(sorted == front + back);
        assert(sorted.insert(at, r) == front.push(r) + back);
        assert(s == init.push(r));
        Seq::filter_distributes_over_add(front, back, pred);
        Seq::filter_distributes_over_add(front.push(r), back, pred);
        front.lemma_filter_push(r, pred);
        init.lemma_filter_push(r, pred);
        if r.last_used == t {
            assert forall|k: int| 0 <= k < back.len() implies (#[trigger] back[k]).last_used
                != t by {
                assert(back[k] == sorted[at + k]);
                assert(sorted[at].last_used >= sorted[at + k].last_used);
            }
            lemma_used_at_none(back, t);
            assert(back.filter(pred) =~= Seq::<BranchView>::empty());
            assert(front.filter(pred) + back.filter(pred) =~= front.filter(pred));
            assert(front.filter(pred).push(r) + back.filter(pred) =~= front.filter(pred).push(r));
        }
    }
}

/// The first of a sequence that is ordered latest first is the first of the
/// records used at its instant.
proof fn lemma_used_at_head(s: Seq<BranchView>, t: int)
    requires
        s.len() > 0,
    ensures
        used_at(s, t) == if s[0].last_used == t {
            seq![s[0]] + used_at(s.drop_first(), t)
        } else {
            used_at(s.drop_first(), t)
        },
{
    let pred = |b: BranchView| b.last_used == t;
    assert(s == seq![s[0]] + s.drop_first());
    s.drop_first().lemma_filter_prepend(s[0], pred);
    if s[0].last_used != t {
        assert(Seq::<BranchView>::empty() + used_at(s.drop_first(), t) =~= used_at(
            s.drop_first(),
            t,
        ));
    }
}

/// A record used at `t` stands in `s` wherever `used_at` holds one.
proof fn lemma_used_at_some(s: Seq<BranchView>, t: int) -> (at: int)
    requires
        used_at(s, t).len() > 0,
    ensures
        0 <= at < s.len(),
        s[at].last_used == t,
{
    let pred = |b: BranchView| b.last_used == t;
    let b = s.filter(pred)[0];
    s.lemma_filter_pred(pred, 0);
    assert(s.filter(pred).contains(b));
    s.lemma_filter_contains_rev(pred, b);
    choose|at: int| 0 <= at < s.len() && s[at] == b
}

/// The order is settled by the two laws above: sequences that are ordered
/// latest first and hold the same records at every instant, in the same order,
/// are the same sequence.
pub proof fn lemma_latest_first_determined(a: Seq<BranchView>, b: Seq<BranchView>)
    requires
        is_latest_first(a),
        is_latest_first(b),
        forall|t: int| #[trigger] used_at(a, t) == used_at(b, t),
    ensures
        a == b,
    decreases a.len() + b.len(),
{
    if a.len() == 0 && b.len() == 0 {
        assert(a =~= b);
    } else if a.len() == 0 || b.len() == 0 {
        let (full, none) = if a.len() == 0 {
            (b, a)
        } else {
            (a, b)
        };
        let t = full[0].last_used;
        lemma_used_at_head(full, t);
        assert(used_at(a, t) == used_at(b, t));
        if used_at(none, t).len() > 0 {
            let at = lemma_used_at_some(none, t);
        }
    } else {
        let t = a[0].last_used;
        let u = b[0].last_used;
        lemma_used_at_head(a, t);
        lemma_used_at_head(b, u);
        assert(used_at(a, t) == used_at(b, t));
        assert(used_at(a, u) == used_at(b, u));
        let in_b = lemma_used_at_some(b, t);
        let in_a = lemma_used_at_some(a, u);
        assert(b[0].last_used >= b[in_b].last_used);
        assert(a[0].last_used >= a[in_a].last_used);
        assert(t == u);
        assert((seq![a[0]] + used_at(a.drop_first(), t))[0] == a[0]);
        assert((seq![b[0]] + used_at(b.drop_first(), t))[0] == b[0]);
        assert(a[0] == b[0]);
        let rest_a = a.drop_first();
        let rest_b = b.drop_first();
        assert forall|i: int, j: int| 0 <= i <= j < rest_a.len() implies rest_a[i].last_used
            >= rest_a[j].last_used by {
            assert(a[i + 1].last_used >= a[j + 1].last_used);
        }
        assert forall|i: int, j: int| 0 <= i <= j < rest_b.len() implies rest_b[i].last_used
            >= rest_b[j].last_used by {
            assert(b[i + 1].last_used >= b[j + 1].last_used);
        }
        assert forall|w: int| #[trigger] used_at(rest_a, w) == used_at(rest_b, w) by {
            lemma_used_at_head(a, w);
            lemma_used_at_head(b, w);
            assert(used_at(a, w) == used_at(b, w));
            if w == t {
                assert((seq![a[0]] + used_at(rest_a, w)).drop_first() =~= used_at(rest_a, w));
                assert((seq![b[0]] + used_at(rest_b, w)).drop_first() =~= used_at(rest_b, w));
            }
        }
        lemma_latest_first_determined(rest_a, rest_b);
        assert(a =~= seq![a[0]] + rest_a);
        assert(b =~= seq![b[0]] + rest_b);
    }
}

/// The record that comes out first is the latest of the store; of several used
/// at that instant, it is the one that stands first in the store. The result
/// is its place in the store.
pub proof fn lemma_latest_first_head(s: Seq<BranchView>) -> (at: int)
    requires
        s.len() > 0,
    ensures
        0 <= at < s.len(),
        latest_first(s).len() == s.len(),
        latest_first(s)[0] == s[at],
        forall|k: int| 0 <= k < s.len() ==> (#[trigger] s[k]).last_used <= s[at].last_used,
        forall|k: int| 0 <= k < at ==> (#[trigger] s[k]).last_used < s[at].last_used,
    decreases s.len(),
{
    let init = s.drop_last();
    let r = s.last();
    let sorted = latest_first(init);
    let place = slot(sorted, r.last_used, 0);
    lemma_latest_first_len(s);
    lemma_latest_first_len(init);
    lemma_slot(sorted, r.last_used, 0);
    if init.len() == 0 {
        s.len() - 1
    } else {
        let at = lemma_latest_first_head(init);
        assert forall|k: int| 0 <= k < init.len() implies #[trigger] init[k] == s[k] by {}
        if place == 0 {
            assert forall|k: int| 0 <= k < s.len() - 1 implies (#[trigger] s[k]).last_used
                < r.last_used by {
                assert(init[k].last_used <= init[at].last_used);
            }
            s.len() - 1
        } else {
            assert(sorted[0].last_used >= r.last_used);
            assert forall|k: int| 0 <= k < s.len() implies (#[trigger] s[k]).last_used
                <= s[at].last_used by {
                if k < init.len() {
                    assert(init[k].last_used <= init[at].last_used);
                }
            }
            assert forall|k: int| 0 <= k < at implies (#[trigger] s[k]).last_used
                < s[at].last_used by {
                assert(init[k].last_used < init[at].last_used);
            }
            at
        }
    }
}

/// The place where a record used at `last_used` goes among `sorted`.
fn find_slot(sorted: &Vec<BranchInfo>, last_used: i64) -> (at: usize)
    ensures
        at == slot(views(sorted@), last_used as int, 0),
        at <= sorted.len(),
{
    let mut at: usize = 0;
    while at < sorted.len() && sorted[at].last_used >= last_used
        invariant
            at <= sorted.len(),
            slot(views(sorted@), last_used as int, 0) == slot(
                views(sorted@),
                last_used as int,
                at as int,
            ),
        decreases sorted.len() - at,
    {
        at += 1;
    }
    at
}

/// Orders `branches` by `last_used`, latest first; records used at the same
/// instant keep their order.
pub fn sort_latest_first(branches: &mut Vec<BranchInfo>)
    ensures
        views(final(branches)@) == latest_first(views(old(branches)@)),
        final(branches).len() == old(branches).len(),
{
    let mut sorted: Vec<BranchInfo> = Vec::new();
    let mut i: usize = 0;
    while i < branches.len()
        invariant
            i <= branches.len(),
            *branches == *old(branches),
            sorted.len() == i,
            views(sorted@) == latest_first(views(branches@).take(i as int)),
        decreases branches.len() - i,
    {
        let at = find_slot(&sorted, branches[i].last_used);
        let ghost before = views(sorted@);
        sorted.insert(at, branches[i].clone());
        i += 1;
        proof {
            let s = views(branches@).take(i as int);
            assert(s.drop_last() == views(branches@).take(i - 1));
            assert(s.last() == branches@[i - 1]@);
            assert(views(sorted@) =~= before.insert(at as int, s.last()));
        }
    }
    assert(views(branches@).take(i as int) == views(branches@));
    *branches = sorted;
}

} // verus!
