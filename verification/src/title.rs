//! Readable titles for branch names: `owner/bar-123-add-thing` reads
//! `BAR-123: add thing`.

use vstd::prelude::*;
use vstd::string::*;
use crate::charclass::{classified, classify_text, run_end, scan_run, Class, Classified};
use crate::prefix::{lemma_ticket_end_bounds, scan_ticket, ticket_end};

verus! {

/// What `str::to_uppercase` returns for the string that holds `s`.
pub uninterp spec fn uppercase(s: Seq<char>) -> Seq<char>;

/// Calls `str::to_uppercase`: the upper-case equivalent of `s` as a new string.
#[verifier::external_body]
fn to_uppercase(s: &str) -> (r: String)
    ensures
        r@ == uppercase(s@),
{
    s.to_uppercase()
}

/// Whether `t` from `from` on is made of words that each follow a dash, up to
/// the end of `t`: the pattern `(-[\w\d]+)*$`.
pub open spec fn words_follow(t: Seq<Classified>, from: int) -> bool
    decreases t.len() - from,
{
    let next = run_end(t, Class::WordOrDigit, from + 1);
    if from >= t.len() {
        from == t.len()
    } else if 0 <= from && t[from].ch == '-' && from + 1 < next <= t.len() {
        words_follow(t, next)
    } else {
        false
    }
}

/// Where the ticket of a titled branch name starts and ends. A name has a title
/// of its own when all of it has the shape `\w+/\w+-\d+(-[\w\d]+)*`.
pub open spec fn ticket_span(t: Seq<Classified>) -> Option<(int, int)> {
    let slash = run_end(t, Class::Word, 0);
    match ticket_end(t, slash) {
        Some(end) => if 0 < slash && words_follow(t, end) {
            Some((slash + 1, end))
        } else {
            None
        },
        None => None,
    }
}

/// `s` with a space in place of each dash.
pub open spec fn spaced(s: Seq<char>) -> Seq<char> {
    s.map_values(|c: char| if c == '-' { ' ' } else { c })
}

/// The title made of the ticket `ticket` and the words `words` that follow it
/// in the branch name: the ticket, a colon, and each word behind a space.
pub open spec fn titled(ticket: Seq<char>, words: Seq<char>) -> Seq<char> {
    ticket.push(':') + spaced(words)
}

/// The title of the branch `s`: the ticket in upper case, a colon, and the
/// words after the ticket, each behind a space. A name of another shape is its
/// own title.
pub open spec fn title(s: Seq<char>) -> Seq<char> {
    match ticket_span(classified(s)) {
        Some((start, end)) => titled(uppercase(s.subrange(start, end)), s.skip(end)),
        None => s,
    }
}

/// Whether words that each follow a dash fill `text` from `from` on.
pub fn scan_words(text: &Vec<Classified>, from: usize) -> (r: bool)
    ensures
        r == words_follow(text@, from as int),
{
    if from > text.len() {
        return false;
    }
    let mut at = from;
    while at < text.len()
        invariant
            from <= at <= text.len(),
            words_follow(text@, from as int) == words_follow(text@, at as int),
        decreases text.len() - at,
    {
        if text[at].ch != '-' {
            return false;
        }
        let next = scan_run(text, Class::WordOrDigit, at + 1);
        if next == at + 1 {
            return false;
        }
        at = next;
    }
    true
}

/// Where the ticket of the titled branch name `text` starts and ends; `None`
/// where the name has another shape.
pub fn find_ticket_span(text: &Vec<Classified>) -> (r: Option<(usize, usize)>)
    ensures
        r is Some <==> ticket_span(text@) is Some,
        r matches Some((start, end)) ==> ticket_span(text@) == Some((start as int, end as int))
            && start <= end <= text.len(),
{
    let slash = scan_run(text, Class::Word, 0);
    if slash == 0 {
        return None;
    }
    match scan_ticket(text, slash) {
        Some(end) => {
            proof {
                lemma_ticket_end_bounds(text@, slash as int);
            }
            if scan_words(text, end) {
                Some((slash + 1, end))
            } else {
                None
            }
        },
        None => None,
    }
}

/// The title made of the ticket `ticket`, which is in upper case already, and
/// the words `words` that follow it in the branch name.
pub fn make_title(ticket: &str, words: &str) -> (r: String)
    ensures
        r@ == titled(ticket@, words@),
{
    let mut r = ticket.to_owned();
    r.push(':');
    for c in it: words.chars()
        invariant
            it.seq() == words@,
            r@ == ticket@.push(':') + spaced(words@.take(it.index() as int)),
    {
        r.push(if c == '-' { ' ' } else { c });
        assert(spaced(words@.take(it.index() + 1)) == spaced(words@.take(it.index() as int)).push(
            if c == '-' { ' ' } else { c },
        ));
    }
    assert(words@.take(words@.len() as int) == words@);
    r
}

/// The readable title of the branch `s`.
pub fn title_from_branch_name(s: &str) -> (r: String)
    ensures
        r@ == title(s@),
{
    let text = classify_text(s);
    match find_ticket_span(&text) {
        Some((start, end)) => {
            let ticket_id = to_uppercase(s.substring_char(start, end));
            let rest = s.substring_char(end, text.len());
            assert(rest@ == s@.skip(end as int));
            make_title(ticket_id.as_str(), rest)
        },
        None => s.to_owned(),
    }
}

} // verus!
