use minigrep::{find_matches, search, search_case_insensitive, select_matching, Config};

#[test]
fn case_sensitive() {
    let query = "duct";
    let contents = "Rust:\nsafe, fast, productive.\nPick three.\nDuct tape.";
    assert_eq!(vec!["safe, fast, productive."], search(query, contents));
}

#[test]
fn case_insensitive() {
    let query = "rUsT";
    let contents = "Rust:\nsafe, fast, productive.\nPick three.\nTrust me.";
    assert_eq!(vec!["Rust:", "Trust me."], search_case_insensitive(query, contents));
}

#[test]
fn indented_lines_come_back_trimmed() {
    let contents = "\
        Rust:
        safe, fast, productive.
        Pick three.
        Duct tape.";
    assert_eq!(vec!["safe, fast, productive."], search("duct", contents));
    assert_eq!(
        vec!["safe, fast, productive.", "Duct tape."],
        search_case_insensitive("DUCT", contents)
    );
}

#[test]
fn inner_whitespace_is_kept() {
    let contents = "  a  b  \n\tc d\t";
    assert_eq!(vec!["a  b"], search("a  b", contents));
    assert_eq!(Vec::<&str>::new(), search("ab", contents));
}

#[test]
fn case_insensitive_lines_are_not_lowered() {
    let contents = "HELLO World\nnothing here";
    assert_eq!(vec!["HELLO World"], search_case_insensitive("hello", contents));
    assert_eq!(Vec::<&str>::new(), search("hello", contents));
}

#[test]
fn empty_contents_give_nothing() {
    assert!(search("x", "").is_empty());
    assert!(search_case_insensitive("x", "").is_empty());
    assert!(search("", "").is_empty());
}

#[test]
fn query_equal_to_a_line_finds_it() {
    let contents = "first line\n  second line  \nthird";
    assert_eq!(vec!["second line"], search("second line", contents));
    assert_eq!(vec!["second line"], search_case_insensitive("second line", contents));
}

#[test]
fn empty_query_matches_every_line() {
    let contents = "a\n\nb";
    assert_eq!(vec!["a", "", "b"], search("", contents));
    assert_eq!(vec!["a", "", "b"], search_case_insensitive("", contents));
}

#[test]
fn crlf_line_endings_are_split() {
    let contents = "one fish\r\ntwo fish\r\nred\r\n";
    assert_eq!(vec!["one fish", "two fish"], search("fish", contents));
}

#[test]
fn trailing_newline_adds_no_line() {
    assert_eq!(vec!["a"], search("a", "a\n"));
}

#[test]
fn results_keep_the_order_of_the_text() {
    let contents = "b2\na1\nb1\na2";
    assert_eq!(vec!["b2", "b1"], search("b", contents));
    assert_eq!(vec!["a1", "a2"], search_case_insensitive("A", contents));
}

#[test]
fn repeated_search_gives_the_same_lines() {
    let contents = "Rust:\nsafe, fast, productive.\nPick three.\nTrust me.";
    assert_eq!(search("st", contents), search("st", contents));
    assert_eq!(
        search_case_insensitive("RUST", contents),
        search_case_insensitive("RUST", contents)
    );
}

#[test]
fn case_insensitive_finds_what_search_finds() {
    let contents = "Rust:\nsafe, fast, productive.\nPick three.\nTrust me.\nrust";
    let exact = search("rust", contents);
    let folded = search_case_insensitive("rust", contents);
    assert_eq!(vec!["Trust me.", "rust"], exact);
    for line in &exact {
        assert!(folded.contains(line));
    }
    assert_eq!(vec!["Rust:", "Trust me.", "rust"], folded);
}

#[test]
fn select_matching_goes_by_keys() {
    let lines = vec!["One", "Two", "Three"];
    let keys = vec!["one", "two", "three"];
    assert_eq!(vec!["Two", "Three"], select_matching("t", &lines, &keys));
    assert_eq!(Vec::<&str>::new(), select_matching("T", &lines, &keys));
    assert_eq!(vec!["One"], select_matching("one", &lines, &keys));
}

#[test]
fn find_matches_follows_the_flag() {
    let contents = "Rust:\nsafe, fast, productive.\nPick three.\nTrust me.";
    let exact = Config {
        query: "rUsT".to_string(),
        file_path: "poem.txt".to_string(),
        ignore_case: false,
    };
    assert_eq!(Vec::<&str>::new(), find_matches(&exact, contents));
    let folded = Config {
        query: "rUsT".to_string(),
        file_path: "poem.txt".to_string(),
        ignore_case: true,
    };
    assert_eq!(vec!["Rust:", "Trust me."], find_matches(&folded, contents));
}
