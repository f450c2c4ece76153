use minigrep::{line_contains, search, search_case_insensitive};

#[test]
fn case_sensitive() {
    let query = "duct";
    let contents = "\
Rust:
safe, fast, productive.
Pick three.
Duct tape.";

    assert_eq!(vec!["safe, fast, productive."], search(query, contents));
}

#[test]
fn case_insensitive() {
    let query = "rUst";
    let contents = "\
Rust:
safe, fast, productive.
Pick three.
Trust me.";
    assert_eq!(
        vec!["Rust:", "Trust me."],
        search_case_insensitive(query, contents)
    );
}

#[test]
fn exact_search_keeps_order_and_each_line_once() {
    let contents = "abab\nxyz\nab\nba";
    assert_eq!(vec!["abab", "ab"], search("ab", contents));
}

#[test]
fn exact_search_respects_case() {
    let contents = "Rust:\ntrust\nRUST";
    assert_eq!(vec!["trust"], search("rust", contents));
}

#[test]
fn empty_query_matches_every_line_in_both_modes() {
    let contents = "one\n\nThree";
    assert_eq!(vec!["one", "", "Three"], search("", contents));
    assert_eq!(vec!["one", "", "Three"], search_case_insensitive("", contents));
}

#[test]
fn empty_text_has_no_matches() {
    assert!(search("a", "").is_empty());
    assert!(search("", "").is_empty());
    assert!(search_case_insensitive("", "").is_empty());
}

#[test]
fn final_line_feed_adds_no_line() {
    assert_eq!(vec!["a", "b"], search("", "a\nb\n"));
    assert_eq!(vec![""], search("", "\n"));
    assert_eq!(vec!["a", ""], search("", "a\n\n"));
}

#[test]
fn carriage_return_before_line_feed_is_dropped() {
    assert_eq!(vec!["one", "two"], search("", "one\r\ntwo\r\n"));
    assert_eq!(vec!["two\r"], search("o\r", "one\r\ntwo\r"));
}

#[test]
fn query_longer_than_every_line_matches_nothing() {
    assert!(search("longer than any", "short\nlines").is_empty());
}

#[test]
fn query_equal_to_a_whole_line_matches_it() {
    assert_eq!(vec!["Pick three."], search("Pick three.", "Rust:\nPick three.\nx"));
}

#[test]
fn returned_lines_keep_their_casing() {
    assert_eq!(vec!["RUST", "rust"], search_case_insensitive("Rust", "RUST\nrust\nrest"));
}

#[test]
fn returned_lines_are_views_into_the_text() {
    let contents = String::from("alpha\nbeta");
    let found = search("bet", &contents);
    assert_eq!(1, found.len());
    let start = contents.as_ptr() as usize;
    let at = found[0].as_ptr() as usize;
    assert_eq!(start + 6, at);
}

#[test]
fn folded_search_finds_at_least_as_many_lines() {
    let contents = "Rust:\nsafe, fast, productive.\nPick three.\nTrust me.";
    let exact = search("rUst", contents);
    let folded = search_case_insensitive("rUst", contents);
    assert!(exact.len() <= folded.len());
    assert_eq!(0, exact.len());
    assert_eq!(2, folded.len());
}

#[test]
fn searches_repeat_their_results() {
    let contents = "Rust:\nsafe, fast, productive.\nPick three.\nTrust me.";
    assert_eq!(search("st", contents), search("st", contents));
    assert_eq!(
        search_case_insensitive("ST", contents),
        search_case_insensitive("ST", contents)
    );
}

#[test]
fn folding_handles_non_ascii_letters() {
    assert_eq!(vec!["Straße ÄRGER"], search_case_insensitive("ärger", "Straße ÄRGER\nother"));
}

#[test]
fn line_contains_finds_contiguous_runs_only() {
    assert!(line_contains("Trust me.", "rust"));
    assert!(line_contains("aaa", "aa"));
    assert!(line_contains("x", ""));
    assert!(line_contains("", ""));
    assert!(!line_contains("", "a"));
    assert!(!line_contains("ab", "ba"));
    assert!(!line_contains("a b", "ab"));
    assert!(!line_contains("Rust", "rust"));
}
