use minigrep::search;
use minigrep::search_case_insensitive;
use minigrep::search_with_config;
use minigrep::Config;

#[test]
fn one_result() {
    let query = "duct";
    let contents = "\
Rust:
safe, fast, productive.
Pick three.";

    assert_eq!(vec!["safe, fast, productive."], search(query, contents));
}

#[test]
fn case_insensitive() {
    let query = "rUsT";
    let contents = "\
Rust:
safe, fast, productive.
Pick three.
Trust me.";

    assert_eq!(vec!["Rust:", "Trust me."], search_case_insensitive(query, contents));
}

#[test]
fn ignore_case_argument() {
    let query = "rUsT";
    let contents = "\
Rust:
safe, fast, productive.
Pick three.
Trust me.";

    assert_eq!(vec!["Rust:", "Trust me."], search_case_insensitive(query, contents));
}

#[test]
fn search_is_deterministic() {
    let query = "st";
    let contents = "Rust:\nsafe, fast, productive.\nPick three.\nTrust me.";
    assert_eq!(search(query, contents), search(query, contents));
    assert_eq!(
        search_case_insensitive(query, contents),
        search_case_insensitive(query, contents)
    );
}

#[test]
fn empty_contents_yield_no_lines() {
    assert_eq!(search("anything", ""), Vec::<&str>::new());
    assert_eq!(search_case_insensitive("anything", ""), Vec::<&str>::new());
    assert_eq!(search("", ""), Vec::<&str>::new());
    assert_eq!(search_case_insensitive("", ""), Vec::<&str>::new());
}

#[test]
fn empty_query_matches_every_line() {
    let contents = "Rust:\nsafe, fast, productive.\nPick three.";
    let all = vec!["Rust:", "safe, fast, productive.", "Pick three."];
    assert_eq!(search("", contents), all);
    assert_eq!(search_case_insensitive("", contents), all);
}

#[test]
fn sensitive_matches_are_insensitive_matches() {
    let query = "Rust";
    let contents = "Rust:\nsafe, fast, productive.\nrust is lowercase\nTrust me.";
    let sensitive = search(query, contents);
    let insensitive = search_case_insensitive(query, contents);
    for line in &sensitive {
        assert!(insensitive.contains(line));
    }
    assert_eq!(sensitive, vec!["Rust:"]);
    assert_eq!(insensitive, vec!["Rust:", "rust is lowercase", "Trust me."]);
}

#[test]
fn query_spanning_lines_never_matches() {
    let contents = "one\ntwo";
    assert_eq!(search("one\ntwo", contents), Vec::<&str>::new());
    assert_eq!(search("e\nt", contents), Vec::<&str>::new());
}

#[test]
fn repeated_occurrences_report_the_line_once() {
    let contents = "abab\nxyx\nabba";
    assert_eq!(search("ab", contents), vec!["abab", "abba"]);
}

#[test]
fn folding_is_ascii_only() {
    // Simple ASCII case folding: accented letters are not folded.
    assert_eq!(search_case_insensitive("sofa", "SOFA"), vec!["SOFA"]);
    assert_eq!(search_case_insensitive("caf\u{e9}", "CAF\u{c9}"), Vec::<&str>::new());
}

#[test]
fn search_with_config_selects_the_variant() {
    let contents = "Rust:\nTrust me.";
    let sensitive = Config {
        query: String::from("rUsT"),
        file_path: String::from("unused.txt"),
        ignore_case: false,
    };
    let insensitive = Config {
        query: String::from("rUsT"),
        file_path: String::from("unused.txt"),
        ignore_case: true,
    };
    assert_eq!(search_with_config(&sensitive, contents), Vec::<&str>::new());
    assert_eq!(search_with_config(&insensitive, contents), vec!["Rust:", "Trust me."]);
}
