use minigrep::contains_substring;
use minigrep::search;
use minigrep::search_case_insensitive;
use minigrep::split_lines;

#[test]
fn one_result() {
    let query = "duct";
    let contents = "\
Rust:
safe, fast, productive.
Pick three.
Duct tape.";

    assert_eq!(vec!["safe, fast, productive."], search(query, contents));
}

#[test]
fn case_insensitive() {
    let query = "rUsT";
    let contents = "\
Rust:
safe, fast, productive.
Pick three.
Trust me.";

    assert_eq!(
        vec!["Rust:", "Trust me."],
        search_case_insensitive(query, contents)
    );
}

#[test]
fn empty_query_returns_every_line() {
    let contents = "Rust:\n\nPick three.";
    assert_eq!(vec!["Rust:", "", "Pick three."], search("", contents));
}

#[test]
fn empty_contents_yield_no_lines() {
    assert_eq!(Vec::<&str>::new(), search("anything", ""));
    assert_eq!(Vec::<&str>::new(), search_case_insensitive("anything", ""));
    assert_eq!(Vec::<&str>::new(), search("", ""));
}

#[test]
fn exact_search_is_case_sensitive() {
    let contents = "Rust:\nsafe, fast, productive.\nPick three.\nTrust me.";
    assert_eq!(Vec::<&str>::new(), search("rUsT", contents));
}

#[test]
fn insensitive_results_cover_exact_results() {
    let query = "us";
    let contents = "Rust:\nsafe, fast, productive.\nPick three.\nTrust me.";
    let exact = search(query, contents);
    let folded = search_case_insensitive(query, contents);
    for line in &exact {
        assert!(folded.contains(line));
    }
    assert_eq!(vec!["Rust:", "Trust me."], exact);
    assert_eq!(vec!["Rust:", "Trust me."], folded);
}

#[test]
fn trailing_line_break_opens_no_line() {
    assert_eq!(vec!["a", "b"], split_lines("a\nb\n"));
    assert_eq!(vec!["a", "b"], split_lines("a\nb"));
    assert_eq!(vec![""], split_lines("\n"));
    assert_eq!(Vec::<&str>::new(), split_lines(""));
}

#[test]
fn carriage_return_is_an_ordinary_character() {
    assert_eq!(vec!["a\r", "b"], split_lines("a\r\nb"));
    assert_eq!(vec!["a\r"], search("\r", "a\r\nb"));
}

#[test]
fn blank_lines_match_only_the_empty_query() {
    let contents = "one\n\ntwo";
    assert_eq!(vec!["one", "", "two"], search("", contents));
    assert_eq!(vec!["one", "two"], search("o", contents));
}

#[test]
fn substring_containment() {
    assert!(contains_substring("hello world", "lo w"));
    assert!(contains_substring("hello", ""));
    assert!(contains_substring("", ""));
    assert!(!contains_substring("", "a"));
    assert!(!contains_substring("hello", "world"));
    assert!(contains_substring("aaab", "aab"));
}

#[test]
fn folding_is_applied_to_both_sides() {
    assert_eq!(
        vec!["GREETINGS"],
        search_case_insensitive("greet", "GREETINGS")
    );
    assert_eq!(vec!["greetings"], search_case_insensitive("GREET", "greetings"));
}
