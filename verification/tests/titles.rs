use git_linear_branch::charclass::Classified;
use git_linear_branch::title::{
    find_ticket_span, make_title, scan_words, title_from_branch_name,
};
use regex::Regex;

/// The characters of `s` with classes that know ASCII only.
fn ascii(s: &str) -> Vec<Classified> {
    s.chars()
        .map(|ch| Classified {
            ch,
            non_space: !ch.is_ascii_whitespace(),
            word: ch.is_ascii_alphanumeric() || ch == '_',
            digit: ch.is_ascii_digit(),
        })
        .collect()
}

#[test]
fn ticket_span_on_given_classes() {
    assert_eq!(find_ticket_span(&ascii("foo/bar-123-aaa-bbb")), Some((4, 11)));
    assert_eq!(find_ticket_span(&ascii("foo/bar-123")), Some((4, 11)));
    assert_eq!(find_ticket_span(&ascii("foo/bar-123-")), None);
    assert_eq!(find_ticket_span(&ascii("foo/bar-123x")), None);
    assert_eq!(find_ticket_span(&ascii("f.o/bar-123")), None);
    assert_eq!(find_ticket_span(&ascii("/bar-123")), None);
    assert_eq!(find_ticket_span(&ascii("")), None);
}

#[test]
fn words_follow_dashes_to_the_end() {
    assert!(scan_words(&ascii("ab-c-d1"), 2));
    assert!(scan_words(&ascii("ab"), 2));
    assert!(!scan_words(&ascii("ab-"), 2));
    assert!(!scan_words(&ascii("ab--c"), 2));
    assert!(!scan_words(&ascii("ab-c d"), 2));
    assert!(!scan_words(&ascii("abc"), 2));
}

#[test]
fn title_is_made_of_ticket_and_words() {
    assert_eq!(make_title("BAR-123", "-aaa-bbb"), "BAR-123: aaa bbb");
    assert_eq!(make_title("BAR-123", ""), "BAR-123:");
    assert_eq!(make_title("", "--"), ":  ");
    assert_eq!(make_title("x", "a b"), "x:a b");
}

fn title_pattern() -> Regex {
    Regex::new(r"^(\w+)/(\w+-\d+)((-[\w\d]+)*)$").unwrap()
}

fn title_by_pattern(pattern: &Regex, s: &str) -> String {
    match pattern.captures(s) {
        Some(caps) => {
            let ticket_id = caps.get(2).unwrap().as_str().to_uppercase();
            let rest = caps.get(3).unwrap().as_str().replace("-", " ");
            format!("{}:{}", ticket_id, rest)
        }
        None => s.to_owned(),
    }
}

#[test]
fn test_title_from_branch_name() {
    assert_eq!(
        title_from_branch_name("foo/bar-123-aaa-bbb"),
        "BAR-123: aaa bbb"
    );
}

#[test]
fn title_without_words() {
    assert_eq!(title_from_branch_name("foo/bar-123"), "BAR-123:");
    assert_eq!(title_from_branch_name("owner/BAR-1-init"), "BAR-1: init");
}

#[test]
fn title_of_another_shape_is_the_name() {
    assert_eq!(title_from_branch_name("foo"), "foo");
    assert_eq!(title_from_branch_name(""), "");
    assert_eq!(title_from_branch_name("foo/bar"), "foo/bar");
    assert_eq!(title_from_branch_name("foo/bar-123-"), "foo/bar-123-");
    assert_eq!(title_from_branch_name("foo/bar-123--x"), "foo/bar-123--x");
    assert_eq!(title_from_branch_name("foo/bar-123abc"), "foo/bar-123abc");
    assert_eq!(title_from_branch_name("foo/bar-123-a b"), "foo/bar-123-a b");
    assert_eq!(title_from_branch_name("f.oo/bar-123-a"), "f.oo/bar-123-a");
    assert_eq!(title_from_branch_name("a/b/c-1"), "a/b/c-1");
    assert_eq!(title_from_branch_name("foo/bar-123-a\n"), "foo/bar-123-a\n");
}

#[test]
fn title_upper_cases_the_ticket_only() {
    assert_eq!(title_from_branch_name("foo/bar_x-12-Fix-it"), "BAR_X-12: Fix it");
    assert_eq!(title_from_branch_name("foo/stra\u{df}e-1-a"), "STRASSE-1: a");
}

fn words_over(pieces: &[&str], length: usize) -> Vec<String> {
    let mut words: Vec<String> = vec![String::new()];
    for _ in 0..length {
        let mut longer: Vec<String> = Vec::new();
        for word in &words {
            for piece in pieces {
                longer.push(format!("{}{}", word, piece));
            }
        }
        words = longer;
    }
    words
}

#[test]
fn title_agrees_with_the_pattern_on_short_names() {
    let pattern = title_pattern();
    let pieces = ["a", "7", "-", "/", " ", "\u{e4}"];
    for length in 0..4 {
        for name in words_over(&pieces, length) {
            assert_eq!(
                title_from_branch_name(&name),
                title_by_pattern(&pattern, &name),
                "for {:?}",
                name
            );
        }
    }
}

#[test]
fn title_agrees_with_the_pattern_after_a_ticket() {
    let pattern = title_pattern();
    let pieces = ["a", "B", "7", "_", "-", "/", " ", "\u{e4}"];
    for tail in words_over(&pieces, 2) {
        for head in ["o/t-1", "o/t-1-w", "ow/T_t-12-a-b", "o.o/t-1"] {
            let name = format!("{}{}", head, tail);
            assert_eq!(
                title_from_branch_name(&name),
                title_by_pattern(&pattern, &name),
                "for {:?}",
                name
            );
        }
    }
}
