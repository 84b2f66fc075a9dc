use minigrep::config::{Config, Flag, ParseError};

fn args(list: &[&str]) -> Vec<String> {
    list.iter().map(|s| s.to_string()).collect()
}

#[test]
fn builds_query_and_path() {
    let c = Config::build(args(&["prog", "-q", "duct", "-f", "poem.txt"]), None).unwrap();
    assert_eq!(c.query, "duct");
    assert_eq!(c.file_path, "poem.txt");
    assert!(!c.ignore_case);
}

#[test]
fn invalid_ignore_case_value() {
    let e = Config::build(args(&["prog", "-i", "maybe"]), None).err().unwrap();
    assert!(matches!(e, ParseError::MissingOrInvalidValue(Flag::IgnoreCase)));
}

#[test]
fn missing_ignore_case_value() {
    let e = Config::build(args(&["prog", "--ignore-case"]), None).err().unwrap();
    assert!(matches!(e, ParseError::MissingOrInvalidValue(Flag::IgnoreCase)));
}

#[test]
fn unknown_argument() {
    let e = Config::build(args(&["prog", "--bogus"]), None).err().unwrap();
    match e {
        ParseError::UnknownArgument(t) => assert_eq!(t, "--bogus"),
        _ => panic!("wrong error"),
    }
}

#[test]
fn missing_query_and_path_values() {
    let e = Config::build(args(&["prog", "-q"]), None).err().unwrap();
    assert!(matches!(e, ParseError::MissingValue(Flag::Query)));
    let e = Config::build(args(&["prog", "-q", "x", "--file-path"]), None).err().unwrap();
    assert!(matches!(e, ParseError::MissingValue(Flag::FilePath)));
}

#[test]
fn environment_default_and_override() {
    let c = Config::build(args(&["prog"]), Some("1".to_string())).unwrap();
    assert!(c.ignore_case);
    let c = Config::build(args(&["prog"]), Some("true".to_string())).unwrap();
    assert!(!c.ignore_case);
    let c = Config::build(args(&["prog", "-i", "false"]), Some("1".to_string())).unwrap();
    assert!(!c.ignore_case);
    let c = Config::build(args(&["prog", "--ignore-case", "true"]), None).unwrap();
    assert!(c.ignore_case);
}

#[test]
fn defaults_and_last_flag_wins() {
    let c = Config::build(args(&[]), None).unwrap();
    assert_eq!(c.query, "");
    assert_eq!(c.file_path, "");
    let c = Config::build(args(&["prog", "--query", "a", "-q", "b", "-f", "x", "-f", "y"]), None)
        .unwrap();
    assert_eq!(c.query, "b");
    assert_eq!(c.file_path, "y");
}

#[test]
fn flag_labels() {
    assert_eq!(Flag::Query.label(), "-q/--query");
    assert_eq!(Flag::FilePath.label(), "-f/--file-path");
    assert_eq!(Flag::IgnoreCase.label(), "-i/--ignore-case");
}
