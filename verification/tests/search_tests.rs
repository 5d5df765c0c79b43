use minigrep::ArgumentError;
use minigrep::Config;
use minigrep::contains_str;
use minigrep::matched_lines;
use minigrep::search;
use minigrep::search_case_insensitive;
use minigrep::split_lines;

#[test]
fn case_sensitive() {
    let query = "duct";
    let contents = "\
Rust:
safe, fast, productive.
Pick three.";
    assert_eq!(vec!["safe, fast, productive."], search(query, contents));
}

#[test]
fn case_insensitive() {
    let query = "rUsT";
    let contents = "\
Rust:
safe, fast, productive.
Pick three.
Trust me.";
    assert_eq!(
        vec!["Rust:", "Trust me."],
        search_case_insensitive(query, contents)
    );
}

#[test]
fn result_lines_contain_query_and_skipped_lines_do_not() {
    let contents = "first stop\nsecond\nlast stop\nnothing here";
    let result = search("stop", contents);
    assert_eq!(vec!["first stop", "last stop"], result);
    for line in split_lines(contents) {
        if result.contains(&line) {
            assert!(contains_str(line, "stop"));
        } else {
            assert!(!contains_str(line, "stop"));
        }
    }
}

#[test]
fn insensitive_result_is_superset_of_sensitive() {
    let contents = "Stop here\nstop now\nno match\nlast STOP";
    let sensitive = search("stop", contents);
    let insensitive = search_case_insensitive("stop", contents);
    assert_eq!(vec!["stop now"], sensitive);
    assert_eq!(vec!["Stop here", "stop now", "last STOP"], insensitive);
    for line in &sensitive {
        assert!(insensitive.contains(line));
    }
}

#[test]
fn order_is_kept_and_duplicate_lines_stay() {
    let contents = "echo\nother\necho\necho";
    assert_eq!(vec!["echo", "echo", "echo"], search("echo", contents));
    let contents2 = "c b\nx\na b\nb";
    assert_eq!(vec!["c b", "a b", "b"], search("b", contents2));
}

#[test]
fn matcher_is_idempotent() {
    let contents = "alpha\nBeta\ngamma beta";
    assert_eq!(search("beta", contents), search("beta", contents));
    assert_eq!(
        search_case_insensitive("BETA", contents),
        search_case_insensitive("BETA", contents)
    );
}

#[test]
fn empty_contents_give_empty_result() {
    assert_eq!(Vec::<&str>::new(), search("anything", ""));
    assert_eq!(Vec::<&str>::new(), search_case_insensitive("anything", ""));
}

#[test]
fn empty_query_returns_every_line_in_order() {
    let contents = "one\ntwo\n\nthree";
    assert_eq!(vec!["one", "two", "", "three"], search("", contents));
    assert_eq!(
        vec!["one", "two", "", "three"],
        search_case_insensitive("", contents)
    );
}

#[test]
fn split_lines_handles_terminators() {
    assert_eq!(Vec::<&str>::new(), split_lines(""));
    assert_eq!(vec![""], split_lines("\n"));
    assert_eq!(vec!["a", "b", "c"], split_lines("a\nb\r\nc\n"));
    assert_eq!(vec!["a\r"], split_lines("a\r"));
    assert_eq!(vec!["", "x"], split_lines("\nx"));
}

#[test]
fn contains_str_edges() {
    assert!(contains_str("anything", ""));
    assert!(contains_str("", ""));
    assert!(!contains_str("", "a"));
    assert!(!contains_str("ab", "abc"));
    assert!(contains_str("abc", "abc"));
    assert!(contains_str("héllo", "él"));
    assert!(!contains_str("Stop", "stop"));
}

#[test]
fn lowercasing_is_applied_to_both_operands() {
    let contents = "rust\nRuSt\nnope";
    assert_eq!(
        vec!["rust", "RuSt"],
        search_case_insensitive("RUST", contents)
    );
}

#[test]
fn matched_lines_selects_the_variant() {
    let contents = "Rust:\nsafe, fast, productive.\nPick three.\nTrust me.";
    let sensitive = Config::build(
        vec![
            String::from("prog"),
            String::from("rUsT"),
            String::from("poem.txt"),
        ],
        false,
    )
    .unwrap();
    assert_eq!(Vec::<&str>::new(), matched_lines(&sensitive, contents));
    let insensitive = Config::build(
        vec![
            String::from("prog"),
            String::from("rUsT"),
            String::from("poem.txt"),
        ],
        true,
    )
    .unwrap();
    assert_eq!(
        vec!["Rust:", "Trust me."],
        matched_lines(&insensitive, contents)
    );
}

#[test]
fn build_without_query_fails() {
    let result = Config::build(vec![String::from("prog")], false);
    assert_eq!(Err(ArgumentError::MissingQuery), result.map(|_| ()));
}

#[test]
fn build_with_no_arguments_fails() {
    let result = Config::build(Vec::new(), false);
    assert_eq!(Err(ArgumentError::MissingQuery), result.map(|_| ()));
}

#[test]
fn build_without_file_path_fails() {
    let result = Config::build(vec![String::from("prog"), String::from("foo")], false);
    assert_eq!(Err(ArgumentError::MissingFilePath), result.map(|_| ()));
}

#[test]
fn build_fills_every_field() {
    let config = Config::build(
        vec![
            String::from("prog"),
            String::from("needle"),
            String::from("hay.txt"),
        ],
        true,
    )
    .unwrap();
    assert_eq!("needle", config.query);
    assert_eq!("hay.txt", config.file_path);
    assert!(config.ignore_case);
    let config = Config::build(
        vec![
            String::from("prog"),
            String::from("needle"),
            String::from("hay.txt"),
        ],
        false,
    )
    .unwrap();
    assert!(!config.ignore_case);
}

#[test]
fn argument_errors_name_the_missing_argument() {
    assert_eq!(
        "Didn't get a query string",
        ArgumentError::MissingQuery.message()
    );
    assert_eq!(
        "Didn't get a file path",
        ArgumentError::MissingFilePath.message()
    );
}
