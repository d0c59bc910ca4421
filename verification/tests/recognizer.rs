use git_linear_branch::charclass::{classify_text, scan_run, Class, Classified};
use git_linear_branch::command_push::sanitize_branch_name;
use git_linear_branch::prefix::{find_prefix_end, get_linear_prefix, scan_ticket};
use regex::Regex;

/// The characters of `s` with classes that know ASCII only.
fn ascii(s: &str) -> Vec<Classified> {
    s.chars()
        .map(|ch| Classified {
            ch,
            non_space: !ch.is_ascii_whitespace(),
            word: ch.is_ascii_alphanumeric() || ch == '_',
            digit: ch.is_ascii_digit(),
        })
        .collect()
}

#[test]
fn classes_are_those_of_the_patterns() {
    let text = classify_text("a_7 /-\u{e4}\u{663}\u{a0}\u{2167}\u{301}\n");
    let word: Vec<bool> = text.iter().map(|k| k.word).collect();
    let digit: Vec<bool> = text.iter().map(|k| k.digit).collect();
    let non_space: Vec<bool> = text.iter().map(|k| k.non_space).collect();
    let chars: String = text.iter().map(|k| k.ch).collect();
    assert_eq!(chars, "a_7 /-\u{e4}\u{663}\u{a0}\u{2167}\u{301}\n");
    assert_eq!(
        word,
        vec![true, true, true, false, false, false, true, true, false, true, true, false]
    );
    assert_eq!(
        digit,
        vec![false, false, true, false, false, false, false, true, false, false, false, false]
    );
    assert_eq!(
        non_space,
        vec![true, true, true, false, true, true, true, true, false, true, true, false]
    );
    assert!(classify_text("").is_empty());
}

#[test]
fn runs_end_where_the_class_ends() {
    let text = ascii("ab12-/ x");
    assert_eq!(scan_run(&text, Class::Word, 0), 4);
    assert_eq!(scan_run(&text, Class::Word, 2), 4);
    assert_eq!(scan_run(&text, Class::Word, 4), 4);
    assert_eq!(scan_run(&text, Class::Digit, 0), 0);
    assert_eq!(scan_run(&text, Class::Digit, 2), 4);
    assert_eq!(scan_run(&text, Class::NonSpace, 0), 6);
    assert_eq!(scan_run(&text, Class::NonSpace, 7), 8);
    assert_eq!(scan_run(&text, Class::WordOrDigit, 1), 4);
    assert_eq!(scan_run(&text, Class::Word, 8), 8);
}

#[test]
fn word_or_digit_takes_either() {
    let odd = vec![
        Classified { ch: 'x', non_space: true, word: true, digit: false },
        Classified { ch: 'y', non_space: true, word: false, digit: true },
        Classified { ch: 'z', non_space: true, word: false, digit: false },
    ];
    assert_eq!(scan_run(&odd, Class::WordOrDigit, 0), 2);
    assert_eq!(scan_run(&odd, Class::Word, 0), 1);
    assert_eq!(scan_run(&odd, Class::Digit, 1), 2);
}

#[test]
fn ticket_is_a_slash_a_word_a_dash_and_a_number() {
    let text = ascii("o/ab-12-x");
    assert_eq!(scan_ticket(&text, 1), Some(7));
    assert_eq!(scan_ticket(&text, 0), None);
    assert_eq!(scan_ticket(&text, 4), None);
    assert_eq!(scan_ticket(&text, 9), None);
    assert_eq!(scan_ticket(&ascii("/a-1"), 0), Some(4));
    assert_eq!(scan_ticket(&ascii("/a-"), 0), None);
    assert_eq!(scan_ticket(&ascii("/-1"), 0), None);
    assert_eq!(scan_ticket(&ascii("/a1"), 0), None);
}

#[test]
fn prefix_end_on_given_classes() {
    assert_eq!(find_prefix_end(&ascii("foo/bar-123-quux")), Some(11));
    assert_eq!(find_prefix_end(&ascii("foo/bar-123")), Some(11));
    assert_eq!(find_prefix_end(&ascii("foo/bar")), None);
    assert_eq!(find_prefix_end(&ascii("/bar-1")), None);
    assert_eq!(find_prefix_end(&ascii("a/b-1/c-2")), Some(9));
    assert_eq!(find_prefix_end(&ascii("a/b-1/c")), Some(5));
    assert_eq!(find_prefix_end(&ascii("a /b-1")), None);
    assert_eq!(find_prefix_end(&ascii("")), None);
    // a digit that counts as whitespace ends the part that a prefix may take
    let mut text = ascii("a/b-12");
    text[5].non_space = false;
    assert_eq!(find_prefix_end(&text), None);
    text[5].digit = false;
    assert_eq!(find_prefix_end(&text), Some(5));
}

#[test]
fn test_get_prefix() {
    assert_eq!(get_linear_prefix("foo"), None);
    assert_eq!(get_linear_prefix("foo/bar"), None);
    assert_eq!(get_linear_prefix("foo/bar-123"), Some("foo/bar-123"));
    assert_eq!(get_linear_prefix("foo/bar-123-quux"), Some("foo/bar-123"));
}

#[test]
fn prefix_stops_after_the_number() {
    assert_eq!(get_linear_prefix("owner/BAR-123-detail"), Some("owner/BAR-123"));
    assert_eq!(get_linear_prefix("owner/BAR-123abc"), Some("owner/BAR-123"));
    assert_eq!(get_linear_prefix("owner/BAR-1 fix"), Some("owner/BAR-1"));
}

#[test]
fn prefix_keeps_case() {
    assert_eq!(get_linear_prefix("Owner/bAr-7-x"), Some("Owner/bAr-7"));
}

#[test]
fn prefix_needs_each_part() {
    assert_eq!(get_linear_prefix(""), None);
    assert_eq!(get_linear_prefix("/bar-123"), None);
    assert_eq!(get_linear_prefix("foo/-123"), None);
    assert_eq!(get_linear_prefix("foo/bar-"), None);
    assert_eq!(get_linear_prefix("foo/bar-x1"), None);
    assert_eq!(get_linear_prefix("foo/bar123"), None);
    assert_eq!(get_linear_prefix("foo-bar-123"), None);
    assert_eq!(get_linear_prefix("foo/b.r-123"), None);
}

#[test]
fn whitespace_before_the_ticket_means_no_prefix() {
    assert_eq!(get_linear_prefix(" foo/bar-123"), None);
    assert_eq!(get_linear_prefix("fo o/bar-123"), None);
    assert_eq!(get_linear_prefix("foo/bar -123"), None);
    assert_eq!(get_linear_prefix("foo\t/bar-123"), None);
    assert_eq!(get_linear_prefix("foo/bar-123\n"), Some("foo/bar-123"));
}

#[test]
fn owner_part_takes_any_character_but_whitespace() {
    assert_eq!(get_linear_prefix("a.b@c/bar-1"), Some("a.b@c/bar-1"));
    assert_eq!(get_linear_prefix("-/x-1"), Some("-/x-1"));
}

#[test]
fn last_slash_with_a_ticket_counts() {
    assert_eq!(get_linear_prefix("a/b/c-1"), Some("a/b/c-1"));
    assert_eq!(get_linear_prefix("a/b-1/c-2"), Some("a/b-1/c-2"));
    assert_eq!(get_linear_prefix("a/b-1/c-2-tail"), Some("a/b-1/c-2"));
    assert_eq!(get_linear_prefix("a/b-1/c"), Some("a/b-1"));
    assert_eq!(get_linear_prefix("a/b-1/c-"), Some("a/b-1"));
    assert_eq!(get_linear_prefix("a//b-1"), Some("a//b-1"));
}

#[test]
fn word_and_number_follow_unicode() {
    assert_eq!(get_linear_prefix("owner/t\u{e4}sk_9-42-x"), Some("owner/t\u{e4}sk_9-42"));
    assert_eq!(get_linear_prefix("owner/bar-\u{663}\u{664}"), Some("owner/bar-\u{663}\u{664}"));
    assert_eq!(get_linear_prefix("\u{e9}/a-1\u{e9}"), Some("\u{e9}/a-1"));
    assert_eq!(get_linear_prefix("foo\u{a0}/bar-1"), None);
    assert_eq!(get_linear_prefix("foo/bar-\u{2167}"), None);
}

#[test]
fn recognizing_twice_changes_nothing() {
    let names = [
        "foo/bar-123",
        "foo/bar-123-quux",
        "a/b-1/c-2-tail",
        "a/b/c-1 rest",
        "owner/t\u{e4}sk_9-42-x",
        "x.y/AB_C-0009z",
    ];
    for name in names {
        let prefix = get_linear_prefix(name).unwrap();
        assert_eq!(get_linear_prefix(prefix), Some(prefix));
        assert!(name.starts_with(prefix));
    }
}

fn words_over(pieces: &[&str], length: usize) -> Vec<String> {
    let mut words: Vec<String> = vec![String::new()];
    for _ in 0..length {
        let mut longer: Vec<String> = Vec::new();
        for word in &words {
            for piece in pieces {
                longer.push(format!("{}{}", word, piece));
            }
        }
        words = longer;
    }
    words
}

fn agrees_with_the_pattern(names: &[String]) {
    let pattern = Regex::new(r"^([^\s]+/\w+-\d+)").unwrap();
    for name in names {
        let expected = pattern.find(name).map(|m| m.as_str());
        assert_eq!(get_linear_prefix(name), expected, "for {:?}", name);
    }
}

#[test]
fn recognizer_agrees_with_the_pattern_on_short_names() {
    let pieces = ["a", "7", "-", "/", " ", "\u{e4}"];
    for length in 0..4 {
        agrees_with_the_pattern(&words_over(&pieces, length));
    }
}

#[test]
fn recognizer_agrees_with_the_pattern_before_a_ticket() {
    let pieces = ["a", "7", "-", "/", " ", ".", "\u{663}", "\t"];
    let mut names: Vec<String> = Vec::new();
    for head in words_over(&pieces, 2) {
        for tail in ["/b-1", "/b-1/c-2", "x/y-1 z", "/-1", "b-1/c-22x"] {
            names.push(format!("{}{}", head, tail));
        }
    }
    agrees_with_the_pattern(&names);
}

#[test]
fn recognizer_agrees_with_the_pattern_after_a_ticket() {
    let pieces = ["a", "7", "_", "-", "/", " ", "\u{e4}", "\n"];
    let mut names: Vec<String> = Vec::new();
    for tail in words_over(&pieces, 2) {
        for head in ["o/t-1", "o.o/T_t-12", "o/p/t-3", "o/t-"] {
            names.push(format!("{}{}", head, tail));
        }
    }
    agrees_with_the_pattern(&names);
}

#[test]
fn sanitize_keeps_a_name_without_prefix() {
    assert_eq!(sanitize_branch_name("foo/bar-123-quux"), "foo/bar-123");
    assert_eq!(sanitize_branch_name("no prefix here"), "no prefix here");
    assert_eq!(sanitize_branch_name(""), "");
}
