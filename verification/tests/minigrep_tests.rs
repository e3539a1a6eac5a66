use minigrep::{search, search_case_insensitive, search_config, Config};

fn args(tokens: &[&str]) -> Vec<String> {
    tokens.iter().map(|t| t.to_string()).collect()
}

#[test]
fn one_result() {
    let query = "duct";
    let contents = "\
Rust:
safe, fast, productive.
Pick three.
Duct";
    let line_numbers = false;

    assert_eq!(
        vec!["safe, fast, productive."],
        search(query, contents, line_numbers)
    );
}

#[test]
fn case_insensitive() {
    let query = "rUsT";
    let contents = "\
Rust:
safe, fast, productive.
Pick three.
Trust me.";
    let line_numbers = false;
    assert_eq!(
        vec!["Rust:", "Trust me."],
        search_case_insensitive(query, contents, line_numbers)
    );
}

#[test]
fn line_numbers_prefix_matches() {
    let results = search("a", "a\nb\nabc\n", true);
    assert_eq!(vec!["1 a", "3 abc"], results);
}

#[test]
fn line_numbers_do_not_change_which_lines_match() {
    let contents = "Rust:\nsafe, fast, productive.\nPick three.\nDuct";
    let bare = search("duct", contents, false);
    let numbered = search("duct", contents, true);
    assert_eq!(bare.len(), numbered.len());
    assert_eq!(vec!["2 safe, fast, productive."], numbered);
}

#[test]
fn multi_digit_line_number() {
    let contents = ".\n.\n.\n.\n.\n.\n.\n.\n.\nneedle\n";
    assert_eq!(vec!["10 needle"], search("needle", contents, true));
}

#[test]
fn crlf_line_breaks() {
    let results = search("o", "one\r\ntwo\r\nthree\r\n", true);
    assert_eq!(vec!["1 one", "2 two"], results);
}

#[test]
fn no_match_yields_empty_result() {
    let results = search("zzz", "a\nb\nc", false);
    assert!(results.is_empty());
}

#[test]
fn empty_query_matches_every_line() {
    assert_eq!(vec!["a", "b"], search("", "a\nb", false));
}

#[test]
fn empty_contents_yield_no_lines() {
    assert!(search("a", "", false).is_empty());
    assert!(search_case_insensitive("a", "", true).is_empty());
}

#[test]
fn insensitive_folds_both_query_and_line() {
    assert_eq!(vec!["rust"], search_case_insensitive("RUST", "rust", false));
    assert_eq!(vec!["RUST"], search_case_insensitive("rust", "RUST", false));
}

#[test]
fn sensitive_search_does_not_fold() {
    assert!(search("RUST", "rust", false).is_empty());
}

#[test]
fn search_twice_gives_identical_output() {
    let contents = "Rust:\nsafe, fast, productive.\nPick three.\nTrust me.";
    assert_eq!(
        search("rUsT", contents, true),
        search("rUsT", contents, true)
    );
    assert_eq!(
        search_case_insensitive("rUsT", contents, false),
        search_case_insensitive("rUsT", contents, false)
    );
}

#[test]
fn not_enough_arguments() {
    match Config::new(args(&[])) {
        Err(e) => assert_eq!(e, "not enough arguments"),
        Ok(_) => panic!("expected a validation error"),
    }
    match Config::new(args(&["only-one"])) {
        Err(e) => assert_eq!(e, "not enough arguments"),
        Ok(_) => panic!("expected a validation error"),
    }
}

#[test]
fn malformed_flag_token() {
    match Config::new(args(&["q", "f", "maybe", "false"])) {
        Err(e) => assert_eq!(e, "problem with argument parsing"),
        Ok(_) => panic!("expected a validation error"),
    }
    match Config::new(args(&["q", "f", "true", "yes"])) {
        Err(e) => assert_eq!(e, "problem with argument parsing"),
        Ok(_) => panic!("expected a validation error"),
    }
}

#[test]
fn missing_flag_tokens_are_malformed() {
    match Config::new(args(&["q", "f"])) {
        Err(e) => assert_eq!(e, "problem with argument parsing"),
        Ok(_) => panic!("expected a validation error"),
    }
    match Config::new(args(&["q", "f", "true"])) {
        Err(e) => assert_eq!(e, "problem with argument parsing"),
        Ok(_) => panic!("expected a validation error"),
    }
}

#[test]
fn config_inverts_the_insensitive_flag() {
    let c = Config::new(args(&["needle", "haystack.txt", "true", "false"])).unwrap_or_else(|_| {
        panic!("expected a valid configuration")
    });
    assert_eq!(c.query, "needle");
    assert_eq!(c.filename, "haystack.txt");
    assert!(!c.case_sensitive);
    assert!(!c.line_numbers);

    let c = Config::new(args(&["needle", "haystack.txt", "false", "true"])).unwrap_or_else(|_| {
        panic!("expected a valid configuration")
    });
    assert!(c.case_sensitive);
    assert!(c.line_numbers);
}

#[test]
fn search_config_selects_the_mode() {
    let contents = "Rust:\nsafe, fast, productive.\nPick three.\nTrust me.";

    let insensitive =
        Config::new(args(&["rUsT", "f", "true", "false"])).unwrap_or_else(|_| panic!());
    assert_eq!(
        vec!["Rust:", "Trust me."],
        search_config(&insensitive, contents)
    );

    let sensitive =
        Config::new(args(&["rUsT", "f", "false", "true"])).unwrap_or_else(|_| panic!());
    assert!(search_config(&sensitive, contents).is_empty());

    let numbered =
        Config::new(args(&["rUsT", "f", "true", "true"])).unwrap_or_else(|_| panic!());
    assert_eq!(
        vec!["1 Rust:", "4 Trust me."],
        search_config(&numbered, contents)
    );
}
