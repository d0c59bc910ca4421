//! Characters and the classes they belong to.
//!
//! Branch names are read as sequences of classified characters: each character
//! comes with the answers to "is it whitespace-free, a word character, a
//! digit?". The answers are those of the `regex` crate for the patterns
//! `[^\s]`, `\w` and `\d`: the Unicode tables behind the classes are large, and
//! nothing here depends on what they hold. Everything past the classification
//! works on the answers alone.

use vstd::prelude::*;
use vstd::string::*;

verus! {

/// The pattern of any character but whitespace.
pub const NON_SPACE: &'static str = "[^\\s]";

/// The pattern of word characters: letters, digits, underscore.
pub const WORD: &'static str = "\\w";

/// The pattern of decimal digits.
pub const DIGIT: &'static str = "\\d";

/// `regex::Regex`, a compiled pattern; nothing is known of what it holds.
#[verifier::external_type_specification]
#[verifier::external_body]
pub struct ExRegex(regex::Regex);

/// Whether `regex::Regex::new` accepts `pattern`.
pub uninterp spec fn regex_compiles(pattern: Seq<char>) -> bool;

/// Whether the regex that `regex::Regex::new` makes of `pattern` matches
/// somewhere in `haystack`: what `regex::Regex::is_match` returns.
pub uninterp spec fn regex_is_match(pattern: Seq<char>, haystack: Seq<char>) -> bool;

/// Whether `c` belongs to the class that `pattern` selects. A pattern that does
/// not compile selects nothing.
pub open spec fn in_class(pattern: Seq<char>, c: char) -> bool {
    regex_compiles(pattern) && regex_is_match(pattern, seq![c])
}

/// A regex together with the pattern that it was compiled from. Only `compile`
/// makes one, so the two always belong together.
struct Compiled {
    pattern: String,
    regex: regex::Regex,
}

impl Compiled {
    closed spec fn pattern(&self) -> Seq<char> {
        self.pattern@
    }

    /// Calls `regex::Regex::new`, which compiles `pattern` or refuses it: the
    /// result is `Some` exactly where `regex` accepts the pattern, and then
    /// holds the regex of that pattern.
    #[verifier::external_body]
    fn compile(pattern: &str) -> (r: Option<Compiled>)
        ensures
            r is Some <==> regex_compiles(pattern@),
            r matches Some(compiled) ==> compiled.pattern() == pattern@,
    {
        match regex::Regex::new(pattern) {
            Ok(regex) => Some(Compiled { pattern: pattern.to_owned(), regex }),
            Err(_) => None,
        }
    }

    /// Calls `regex::Regex::is_match` on the string that holds `c` alone: the
    /// result says whether the regex of this pattern matches that string.
    #[verifier::external_body]
    fn is_match(&self, c: char) -> (r: bool)
        ensures
            r == regex_is_match(self.pattern(), seq![c]),
    {
        self.regex.is_match(c.encode_utf8(&mut [0u8; 4]))
    }
}

/// Whether `c` belongs to the class that `pattern` selects.
fn member(class: &Option<Compiled>, c: char, Ghost(pattern): Ghost<Seq<char>>) -> (r: bool)
    requires
        class is Some <==> regex_compiles(pattern),
        class matches Some(compiled) ==> compiled.pattern() == pattern,
    ensures
        r == in_class(pattern, c),
{
    match class {
        Some(compiled) => compiled.is_match(c),
        None => false,
    }
}

/// A character with the classes that it belongs to.
#[derive(Clone, Copy, Debug)]
pub struct Classified {
    pub ch: char,
    /// Whether the character is no whitespace.
    pub non_space: bool,
    /// Whether the character is a word character.
    pub word: bool,
    /// Whether the character is a decimal digit.
    pub digit: bool,
}

/// A class of characters that branch names are made of.
#[derive(Clone, Copy, Debug)]
pub enum Class {
    NonSpace,
    Word,
    Digit,
    /// Word characters and digits.
    WordOrDigit,
}

impl Classified {
    /// Whether the character belongs to `class`.
    pub open spec fn is(self, class: Class) -> bool {
        match class {
            Class::NonSpace => self.non_space,
            Class::Word => self.word,
            Class::Digit => self.digit,
            Class::WordOrDigit => self.word || self.digit,
        }
    }

    /// Whether the character belongs to `class`.
    pub fn has(&self, class: Class) -> (r: bool)
        ensures
            r == self.is(class),
    {
        match class {
            Class::NonSpace => self.non_space,
            Class::Word => self.word,
            Class::Digit => self.digit,
            Class::WordOrDigit => self.word || self.digit,
        }
    }
}

/// `c` with the classes that it belongs to.
pub open spec fn classify(c: char) -> Classified {
    Classified {
        ch: c,
        non_space: in_class(NON_SPACE@, c),
        word: in_class(WORD@, c),
        digit: in_class(DIGIT@, c),
    }
}

/// The characters of `s`, each with its classes.
pub open spec fn classified(s: Seq<char>) -> Seq<Classified> {
    s.map_values(|c: char| classify(c))
}

/// The characters of `s`, each with its classes.
pub fn classify_text(s: &str) -> (text: Vec<Classified>)
    ensures
        text@ == classified(s@),
{
    let non_space = Compiled::compile(NON_SPACE);
    let word = Compiled::compile(WORD);
    let digit = Compiled::compile(DIGIT);
    let mut text: Vec<Classified> = Vec::new();
    for c in it: s.chars()
        invariant
            it.seq() == s@,
            non_space is Some <==> regex_compiles(NON_SPACE@),
            non_space matches Some(compiled) ==> compiled.pattern() == NON_SPACE@,
            word is Some <==> regex_compiles(WORD@),
            word matches Some(compiled) ==> compiled.pattern() == WORD@,
            digit is Some <==> regex_compiles(DIGIT@),
            digit matches Some(compiled) ==> compiled.pattern() == DIGIT@,
            text@ == classified(s@.take(it.index() as int)),
    {
        let ghost seen = s@.take(it.index() as int);
        assert(s@.take(it.index() + 1) == seen.push(c));
        assert(classified(seen.push(c)) =~= classified(seen).push(classify(c)));
        text.push(
            Classified {
                ch: c,
                non_space: member(&non_space, c, Ghost(NON_SPACE@)),
                word: member(&word, c, Ghost(WORD@)),
                digit: member(&digit, c, Ghost(DIGIT@)),
            },
        );
    }
    assert(s@.take(s@.len() as int) == s@);
    text
}

/// The end of the run of characters of `class` that starts at `from`: the
/// first position at or after `from` that holds no such character, or the
/// length of `t`.
pub open spec fn run_end(t: Seq<Classified>, class: Class, from: int) -> int
    decreases t.len() - from,
{
    if 0 <= from < t.len() && t[from].is(class) {
        run_end(t, class, from + 1)
    } else {
        from
    }
}

/// A run lies within the sequence, holds characters of its class only, and
/// cannot be extended.
pub proof fn lemma_run_end(t: Seq<Classified>, class: Class, from: int)
    requires
        0 <= from <= t.len(),
    ensures
        from <= run_end(t, class, from) <= t.len(),
        forall|k: int| from <= k < run_end(t, class, from) ==> (#[trigger] t[k]).is(class),
        run_end(t, class, from) < t.len() ==> !t[run_end(t, class, from)].is(class),
    decreases t.len() - from,
{
    if from < t.len() && t[from].is(class) {
        lemma_run_end(t, class, from + 1);
    }
}

/// A position that ends a stretch of characters of the class and holds none is
/// the run's end.
pub proof fn lemma_run_end_unique(t: Seq<Classified>, class: Class, from: int, end: int)
    requires
        0 <= from <= end <= t.len(),
        forall|k: int| from <= k < end ==> (#[trigger] t[k]).is(class),
        end < t.len() ==> !t[end].is(class),
    ensures
        run_end(t, class, from) == end,
    decreases end - from,
{
    if from < end {
        assert(t[from].is(class));
        lemma_run_end_unique(t, class, from + 1, end);
    }
}

/// Cutting the sequence at `n` cuts the run at `n`.
pub proof fn lemma_run_end_take(t: Seq<Classified>, class: Class, from: int, n: int)
    requires
        0 <= from <= n <= t.len(),
    ensures
        run_end(t.take(n), class, from) == if run_end(t, class, from) <= n {
            run_end(t, class, from)
        } else {
            n
        },
{
    lemma_run_end(t, class, from);
    let end = if run_end(t, class, from) <= n {
        run_end(t, class, from)
    } else {
        n
    };
    let cut = t.take(n);
    assert forall|k: int| from <= k < end implies (#[trigger] cut[k]).is(class) by {
        assert(cut[k] == t[k]);
    }
    if end < cut.len() {
        assert(cut[end] == t[end]);
    }
    lemma_run_end_unique(cut, class, from, end);
}

/// Scans the run of characters of `class` that starts at `from`.
pub fn scan_run(text: &Vec<Classified>, class: Class, from: usize) -> (end: usize)
    ensures
        end == run_end(text@, class, from as int),
        from <= end,
        from <= text.len() ==> end <= text.len(),
{
    let mut end = from;
    while end < text.len() && text[end].has(class)
        invariant
            from <= end,
            from <= text.len() ==> end <= text.len(),
            run_end(text@, class, from as int) == run_end(text@, class, end as int),
        decreases text.len() - end,
    {
        end += 1;
    }
    end
}

} // verus!
