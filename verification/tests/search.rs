use std::collections::HashMap;

use minigrep::{scan, search, search_case_insensitive, search_case_sensitive, CaseMode};

#[test]
fn case_sensitive() {
    let query = "duct";
    let contents = "\
Rust:
safe, fast, productive.
Pick three.
Duct tape.";

    let mut result = HashMap::new();
    result.insert(2, "safe, fast, productive.");

    assert_eq!(result, search_case_sensitive(query, contents));
}

#[test]
fn case_insensitive() {
    let query = "rUsT";
    let contents = "\
Rust:
safe, fast, productive.
Pick three.
Trust me.";

    let mut result = HashMap::new();
    result.insert(1, "Rust:");
    result.insert(4, "Trust me.");

    assert_eq!(result, search_case_insensitive(query, contents));
}

#[test]
fn empty_content_matches_nothing() {
    let empty: HashMap<u32, &str> = HashMap::new();
    assert_eq!(empty, search_case_sensitive("anything", ""));
    assert_eq!(empty, search_case_insensitive("anything", ""));
}

#[test]
fn empty_query_matches_single_line() {
    let mut result = HashMap::new();
    result.insert(1, "abc");
    assert_eq!(result, search_case_sensitive("", "abc"));
    assert_eq!(result, search_case_insensitive("", "abc"));
}

#[test]
fn empty_query_matches_every_line_once() {
    let contents = "one\ntwo\nthree";
    let mut result = HashMap::new();
    result.insert(1, "one");
    result.insert(2, "two");
    result.insert(3, "three");
    assert_eq!(result, search_case_sensitive("", contents));
    assert_eq!(result, search_case_insensitive("", contents));
}

#[test]
fn search_selects_mode() {
    let contents = "Wanted\nwanted";
    let mut sensitive = HashMap::new();
    sensitive.insert(2, "wanted");
    assert_eq!(sensitive, search("wanted", contents, CaseMode::Sensitive));

    let mut insensitive = HashMap::new();
    insensitive.insert(1, "Wanted");
    insensitive.insert(2, "wanted");
    assert_eq!(insensitive, search("wanted", contents, CaseMode::Insensitive));
}

#[test]
fn no_match_yields_empty_result() {
    let empty: HashMap<u32, &str> = HashMap::new();
    assert_eq!(empty, search_case_sensitive("zebra", "one\ntwo\nthree"));
    assert_eq!(empty, search_case_insensitive("zebra", "one\ntwo\nthree"));
}

#[test]
fn numbering_skips_nothing() {
    // Line numbers count every physical line, matching or not, and a
    // trailing line break adds no line.
    let contents = "ab\ncd\nab\ncd\nab\n";
    let mut result = HashMap::new();
    result.insert(1, "ab");
    result.insert(3, "ab");
    result.insert(5, "ab");
    assert_eq!(result, search_case_sensitive("ab", contents));
}

#[test]
fn carriage_return_line_breaks() {
    let contents = "ab\r\ncd\r\nef";
    let mut result = HashMap::new();
    result.insert(1, "ab");
    assert_eq!(result, search_case_sensitive("ab", contents));

    // A carriage return not followed by a line feed stays in its line.
    let mut kept = HashMap::new();
    kept.insert(1, "ab\r");
    assert_eq!(kept, search_case_sensitive("ab", "ab\r"));
}

#[test]
fn insensitive_keeps_original_casing() {
    let contents = "MiXeD case Line";
    let mut result = HashMap::new();
    result.insert(1, "MiXeD case Line");
    assert_eq!(result, search_case_insensitive("mixed CASE", contents));
}

#[test]
fn insensitive_folds_beyond_ascii() {
    let contents = "ΓΕΙΑ ΣΟΥ\nΑΝΤΙΟ";
    let mut result = HashMap::new();
    result.insert(1, "ΓΕΙΑ ΣΟΥ");
    assert_eq!(result, search_case_insensitive("γεια", contents));

    let mut umlaut = HashMap::new();
    umlaut.insert(1, "Grüße");
    assert_eq!(umlaut, search_case_insensitive("GRÜẞE", "Grüße"));
}

#[test]
fn sensitive_heeds_casing() {
    let empty: HashMap<u32, &str> = HashMap::new();
    assert_eq!(empty, search_case_sensitive("RUST", "rust"));
}

#[test]
fn repeated_search_is_identical() {
    let contents = "one\ntwo\none two";
    let first = search_case_sensitive("one", contents);
    let second = search_case_sensitive("one", contents);
    assert_eq!(first, second);
}

#[test]
fn scan_splits_lines() {
    let no_lines: Vec<&str> = Vec::new();
    assert_eq!(no_lines, scan(""));
    assert_eq!(vec!["abc"], scan("abc"));
    // A carriage return counts as a line break only right before a line feed.
    assert_eq!(vec!["ab", "cd\ref"], scan("ab\ncd\ref"));
    assert_eq!(vec!["ab", "cd"], scan("ab\r\ncd\r\n"));
    assert_eq!(vec!["ab", "", "cd"], scan("ab\n\ncd\n"));
}
