use minigrep::search::search;
use minigrep::lines::lines;
use minigrep::text::{contains, same_text};

#[test]
fn test_search_case_sensitive() {
    let query = "hello";
    let contents = "\
hello world
Hello World
Other World
hello there";
    assert_eq!(vec!["hello world", "hello there"], search(query, contents, None));

    let query = "duct";
    let contents = "\
Rust:
safe, fast, productive.
Pick three.";
    assert_eq!(vec!["safe, fast, productive."], search(query, contents, None));
}

#[test]
fn test_search_case_insensitive() {
    let query = "hello";
    let contents = "\
hello world
Hello World
Other World
hello there";
    assert_eq!(
        vec!["hello world", "Hello World", "hello there"],
        search(query, contents, Some(true))
    );

    let query = "duct";
    let contents = "\
Rust:
safe, fast, productive.
Pick three.
Duct tape.";
    assert_eq!(
        vec!["safe, fast, productive.", "Duct tape."],
        search(query, contents, Some(true))
    );
}

#[test]
fn explicit_false_flag_is_case_sensitive() {
    let contents = "hello world\nHello World\nOther World\nhello there";
    assert_eq!(vec!["hello world", "hello there"], search("hello", contents, Some(false)));
}

#[test]
fn empty_query_returns_every_line() {
    let contents = "one\n\nthree\r\nfour";
    assert_eq!(vec!["one", "", "three", "four"], search("", contents, None));
    assert_eq!(vec!["one", "", "three", "four"], search("", contents, Some(true)));
}

#[test]
fn empty_contents_returns_nothing() {
    assert!(search("x", "", None).is_empty());
    assert!(search("", "", Some(true)).is_empty());
}

#[test]
fn no_match_is_empty_not_error() {
    assert!(search("zebra", "apple\nbanana", None).is_empty());
}

#[test]
fn duplicate_lines_each_reported() {
    assert_eq!(vec!["ab", "ab"], search("a", "ab\ncd\nab", None));
}

#[test]
fn repeated_search_gives_equal_results() {
    let contents = "Alpha\nbeta\nALPHABET";
    assert_eq!(search("alpha", contents, Some(true)), search("alpha", contents, Some(true)));
    assert_eq!(vec!["Alpha", "ALPHABET"], search("alpha", contents, Some(true)));
}

#[test]
fn lowercase_is_full_unicode() {
    assert_eq!(vec!["ÄPFEL und Birnen"], search("äpfel", "ÄPFEL und Birnen\nKirschen", Some(true)));
    assert!(search("äpfel", "ÄPFEL und Birnen", None).is_empty());
}

#[test]
fn lines_follow_line_break_rules() {
    assert_eq!(vec!["a", "b"], lines("a\nb\n"));
    assert_eq!(vec!["a", "", "b"], lines("a\r\n\nb"));
    assert_eq!(vec!["a\r"], lines("a\r"));
    assert_eq!(vec!["", ""], lines("\n\n"));
    assert_eq!(vec!["größe", "ñ"], lines("größe\r\nñ"));
    assert!(lines("").is_empty());
}

#[test]
fn substring_test() {
    assert!(contains("safe, fast, productive.", "duct"));
    assert!(!contains("Duct tape.", "duct"));
    assert!(contains("anything", ""));
    assert!(!contains("ab", "abc"));
    assert!(contains("größe", "öß"));
}

#[test]
fn text_equality() {
    assert!(same_text("-q", "-q"));
    assert!(!same_text("-q", "-qq"));
    assert!(!same_text("-q", "-f"));
}
