//! Recognition of branch prefixes of the form `owner/WORD-NUMBER`.
//!
//! A prefix is what the pattern `^[^\s]+/\w+-\d+` selects at the start of a
//! branch name: a non-empty owner part free of whitespace, a slash, a ticket
//! word, a dash and a ticket number. The owner part is as long as it can be, so
//! of several slashes that a ticket follows the last one counts. No whitespace
//! occurs anywhere in a prefix.

use vstd::prelude::*;
use vstd::string::*;
use crate::charclass::{
    classified,
    classify_text,
    lemma_run_end,
    lemma_run_end_take,
    run_end,
    scan_run,
    Class,
    Classified,
};

verus! {

/// Where the ticket `/\w+-\d+` that starts with the slash at `slash` ends, if
/// there is one: the word and the number are runs that cannot be extended.
pub open spec fn ticket_end(t: Seq<Classified>, slash: int) -> Option<int> {
    let dash = run_end(t, Class::Word, slash + 1);
    let end = run_end(t, Class::Digit, dash + 1);
    if 0 <= slash < t.len() && t[slash].ch == '/' && slash + 1 < dash < t.len() && t[dash].ch
        == '-' && dash + 1 < end {
        Some(end)
    } else {
        None
    }
}

/// Where the prefix whose slash stands at `slash` ends, if there is one: the
/// owner part is not empty, a ticket follows the slash, and no whitespace
/// occurs before the ticket's end.
pub open spec fn prefix_end_at(t: Seq<Classified>, slash: int) -> Option<int> {
    match ticket_end(t, slash) {
        Some(end) => if 1 <= slash && end <= run_end(t, Class::NonSpace, 0) {
            Some(end)
        } else {
            None
        },
        None => None,
    }
}

/// The end of the prefix with the last slash at or before `upto`.
pub open spec fn last_prefix_end(t: Seq<Classified>, upto: int) -> Option<int>
    decreases upto,
{
    if upto < 1 {
        None
    } else if prefix_end_at(t, upto) is Some {
        prefix_end_at(t, upto)
    } else {
        last_prefix_end(t, upto - 1)
    }
}

/// Where the prefix that `t` starts with ends, if `t` starts with one.
pub open spec fn prefix_end(t: Seq<Classified>) -> Option<int> {
    last_prefix_end(t, t.len() - 1)
}

/// The prefix that `s` starts with, if it starts with one.
pub open spec fn linear_prefix(s: Seq<char>) -> Option<Seq<char>> {
    match prefix_end(classified(s)) {
        Some(end) => Some(s.take(end)),
        None => None,
    }
}

/// Whether `s` is a prefix and nothing more.
pub open spec fn is_linear_prefix(s: Seq<char>) -> bool {
    linear_prefix(s) == Some(s)
}

/// A ticket ends after its slash, within the sequence.
pub proof fn lemma_ticket_end_bounds(t: Seq<Classified>, slash: int)
    ensures
        ticket_end(t, slash) matches Some(end) ==> 0 <= slash && slash + 4 <= end <= t.len(),
{
    if 0 <= slash < t.len() {
        let dash = run_end(t, Class::Word, slash + 1);
        lemma_run_end(t, Class::Word, slash + 1);
        if dash < t.len() {
            lemma_run_end(t, Class::Digit, dash + 1);
        }
    }
}

/// The slash that a found prefix end belongs to: no later slash up to `upto`
/// starts a prefix.
pub proof fn lemma_last_prefix_slash(t: Seq<Classified>, upto: int) -> (slash: int)
    requires
        last_prefix_end(t, upto) is Some,
    ensures
        1 <= slash <= upto,
        prefix_end_at(t, slash) == last_prefix_end(t, upto),
        forall|later: int| slash < later <= upto ==> prefix_end_at(t, later) is None,
    decreases upto,
{
    if prefix_end_at(t, upto) is Some {
        upto
    } else {
        lemma_last_prefix_slash(t, upto - 1)
    }
}

/// The last slash up to `upto` that starts a prefix decides the result.
pub proof fn lemma_last_prefix_found(t: Seq<Classified>, slash: int, upto: int)
    requires
        1 <= slash <= upto,
        prefix_end_at(t, slash) is Some,
        forall|later: int| slash < later <= upto ==> prefix_end_at(t, later) is None,
    ensures
        last_prefix_end(t, upto) == prefix_end_at(t, slash),
    decreases upto - slash,
{
    if slash < upto {
        lemma_last_prefix_found(t, slash, upto - 1);
    }
}

/// Whether slashes, dashes, word characters and digits are no whitespace in
/// `t`, as they are with the classes of `regex`.
pub open spec fn ticket_is_no_whitespace(t: Seq<Classified>) -> bool {
    forall|k: int|
        0 <= k < t.len() && ((#[trigger] t[k]).ch == '/' || t[k].ch == '-' || t[k].word
            || t[k].digit) ==> t[k].non_space
}

/// Where a ticket cannot hold whitespace, only the owner part decides whether
/// whitespace stands in the way: a prefix starts at a slash exactly where the
/// owner part before it is not empty and free of whitespace, and a ticket
/// follows. That is how the pattern puts it.
pub proof fn lemma_prefix_owner_decides(t: Seq<Classified>, slash: int)
    requires
        ticket_is_no_whitespace(t),
    ensures
        prefix_end_at(t, slash) is Some <==> 1 <= slash && ticket_end(t, slash) is Some && (
        forall|k: int| 0 <= k < slash ==> (#[trigger] t[k]).non_space),
        prefix_end_at(t, slash) is Some ==> prefix_end_at(t, slash) == ticket_end(t, slash),
{
    lemma_run_end(t, Class::NonSpace, 0);
    let head = run_end(t, Class::NonSpace, 0);
    if ticket_end(t, slash) is Some && 1 <= slash {
        let end = ticket_end(t, slash)->0;
        let dash = run_end(t, Class::Word, slash + 1);
        lemma_ticket_end_bounds(t, slash);
        lemma_run_end(t, Class::Word, slash + 1);
        lemma_run_end(t, Class::Digit, dash + 1);
        if forall|k: int| 0 <= k < slash ==> (#[trigger] t[k]).non_space {
            if head < end {
                assert(!t[head].is(Class::NonSpace));
                if head > slash && head < dash {
                    assert(t[head].is(Class::Word));
                } else if head > dash {
                    assert(t[head].is(Class::Digit));
                }
            }
        }
        if end <= head {
            assert forall|k: int| 0 <= k < slash implies (#[trigger] t[k]).non_space by {
                assert(t[k].is(Class::NonSpace));
            }
        }
    }
}

/// A prefix that is found has the shape that the pattern asks for: an owner
/// part, the slash at `shape.0`, word characters up to the dash at `shape.1`,
/// digits from there to the end `shape.2`, and no whitespace anywhere.
pub proof fn lemma_prefix_shape(t: Seq<Classified>) -> (shape: (int, int, int))
    requires
        prefix_end(t) is Some,
    ensures
        ({
            let (slash, dash, end) = shape;
            &&& prefix_end(t) == Some(end)
            &&& 1 <= slash && slash + 1 < dash && dash + 1 < end <= t.len()
            &&& t[slash].ch == '/'
            &&& t[dash].ch == '-'
            &&& forall|k: int| slash < k < dash ==> (#[trigger] t[k]).word
            &&& forall|k: int| dash < k < end ==> (#[trigger] t[k]).digit
            &&& forall|k: int| 0 <= k < end ==> (#[trigger] t[k]).non_space
            &&& end < t.len() ==> !t[end].digit
        }),
{
    let slash = lemma_last_prefix_slash(t, t.len() - 1);
    let dash = run_end(t, Class::Word, slash + 1);
    let end = run_end(t, Class::Digit, dash + 1);
    lemma_ticket_end_bounds(t, slash);
    lemma_run_end(t, Class::Word, slash + 1);
    lemma_run_end(t, Class::Digit, dash + 1);
    lemma_run_end(t, Class::NonSpace, 0);
    assert forall|k: int| slash < k < dash implies (#[trigger] t[k]).word by {
        assert(t[k].is(Class::Word));
    }
    assert forall|k: int| dash < k < end implies (#[trigger] t[k]).digit by {
        assert(t[k].is(Class::Digit));
    }
    assert forall|k: int| 0 <= k < end implies (#[trigger] t[k]).non_space by {
        assert(t[k].is(Class::NonSpace));
    }
    if end < t.len() {
        assert(!t[end].is(Class::Digit));
    }
    (slash, dash, end)
}

/// A prefix that is found stands at the start of the sequence and holds at
/// least an owner character, the slash, a word character, the dash and a digit.
pub proof fn lemma_linear_prefix_is_prefix(s: Seq<char>)
    ensures
        linear_prefix(s) matches Some(p) ==> p.is_prefix_of(s) && 5 <= p.len(),
{
    if prefix_end(classified(s)) is Some {
        let shape = lemma_prefix_shape(classified(s));
    }
}

/// What is cut out of `t` at `end`, behind which no digit stands, keeps the
/// tickets of `t` that end within it, and holds no others.
proof fn lemma_ticket_end_take(t: Seq<Classified>, end: int, slash: int)
    requires
        0 <= end <= t.len(),
        end < t.len() ==> !t[end].digit,
    ensures
        ticket_end(t.take(end), slash) matches Some(e) ==> ticket_end(t, slash) == Some(e),
        ticket_end(t, slash) matches Some(e) ==> e <= end ==> ticket_end(t.take(end), slash)
            == Some(e),
{
    let cut = t.take(end);
    if 0 <= slash < end {
        assert(cut[slash] == t[slash]);
        let dash = run_end(t, Class::Word, slash + 1);
        lemma_run_end(t, Class::Word, slash + 1);
        lemma_run_end_take(t, Class::Word, slash + 1, end);
        if dash < end {
            assert(cut[dash] == t[dash]);
            lemma_run_end(t, Class::Digit, dash + 1);
            lemma_run_end_take(t, Class::Digit, dash + 1, end);
            if end < t.len() {
                assert(!t[end].is(Class::Digit));
            }
        }
    }
}

/// What a prefix is cut down to is a prefix as a whole.
pub proof fn lemma_prefix_end_idempotent(t: Seq<Classified>)
    ensures
        prefix_end(t) matches Some(end) ==> prefix_end(t.take(end)) == Some(end),
{
    if prefix_end(t) is Some {
        let slash = lemma_last_prefix_slash(t, t.len() - 1);
        let end = prefix_end(t)->0;
        let dash = run_end(t, Class::Word, slash + 1);
        let cut = t.take(end);
        lemma_ticket_end_bounds(t, slash);
        lemma_run_end(t, Class::Word, slash + 1);
        lemma_run_end(t, Class::Digit, dash + 1);
        if end < t.len() {
            assert(!t[end].is(Class::Digit));
        }
        lemma_run_end(t, Class::NonSpace, 0);
        lemma_run_end_take(t, Class::NonSpace, 0, end);
        lemma_ticket_end_take(t, end, slash);
        assert(prefix_end_at(cut, slash) == Some(end));
        assert forall|later: int| slash < later <= cut.len() - 1 implies prefix_end_at(
            cut,
            later,
        ) is None by {
            lemma_ticket_end_take(t, end, later);
            if prefix_end_at(cut, later) is Some {
                assert(prefix_end_at(t, later) is Some);
            }
        }
        lemma_last_prefix_found(cut, slash, cut.len() - 1);
    }
}

/// Recognizing the prefix of a prefix changes nothing.
pub proof fn lemma_linear_prefix_idempotent(s: Seq<char>)
    ensures
        linear_prefix(s) matches Some(p) ==> linear_prefix(p) == Some(p),
{
    if prefix_end(classified(s)) is Some {
        let end = prefix_end(classified(s))->0;
        lemma_prefix_end_idempotent(classified(s));
        let shape = lemma_prefix_shape(classified(s));
        let p = s.take(end);
        assert(classified(p) == classified(s).take(end));
        assert(p.take(end) == p);
    }
}

/// The end of the ticket that starts with the slash at `slash`.
pub fn scan_ticket(text: &Vec<Classified>, slash: usize) -> (r: Option<usize>)
    ensures
        r is Some <==> ticket_end(text@, slash as int) is Some,
        r matches Some(end) ==> ticket_end(text@, slash as int) == Some(end as int),
{
    if slash >= text.len() || text[slash].ch != '/' {
        return None;
    }
    let dash = scan_run(text, Class::Word, slash + 1);
    if dash == slash + 1 || dash >= text.len() || text[dash].ch != '-' {
        return None;
    }
    let end = scan_run(text, Class::Digit, dash + 1);
    if end == dash + 1 {
        return None;
    }
    Some(end)
}

/// Where the prefix that `text` starts with ends, if `text` starts with one.
pub fn find_prefix_end(text: &Vec<Classified>) -> (r: Option<usize>)
    ensures
        r is Some <==> prefix_end(text@) is Some,
        r matches Some(end) ==> prefix_end(text@) == Some(end as int) && end <= text.len(),
{
    let head = scan_run(text, Class::NonSpace, 0);
    let mut slash = text.len();
    while slash > 1
        invariant
            head == run_end(text@, Class::NonSpace, 0),
            slash <= text.len(),
            prefix_end(text@) == last_prefix_end(text@, slash - 1),
        decreases slash,
    {
        slash -= 1;
        match scan_ticket(text, slash) {
            Some(end) => {
                if end <= head {
                    proof {
                        lemma_ticket_end_bounds(text@, slash as int);
                    }
                    return Some(end);
                }
            },
            None => {},
        }
    }
    None
}

/// The prefix that `branch_name` starts with: the text up to the end of the
/// ticket number, or `None` where the name starts with no prefix.
pub fn get_linear_prefix<'a>(branch_name: &'a str) -> (r: Option<&'a str>)
    ensures
        r is Some <==> linear_prefix(branch_name@) is Some,
        r matches Some(p) ==> linear_prefix(branch_name@) == Some(p@),
{
    let text = classify_text(branch_name);
    match find_prefix_end(&text) {
        Some(end) => Some(branch_name.substring_char(0, end)),
        None => None,
    }
}

} // verus!
