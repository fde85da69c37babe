use minigrep::{Config, USAGE};

fn args(v: &[&str]) -> Vec<String> {
    v.iter().map(|s| s.to_string()).collect()
}

#[test]
fn parse_query_and_file() {
    let a = args(&["prog", "duct", "poem.txt"]);
    let c = Config::parse(&a).unwrap();
    assert_eq!("duct", c.query);
    assert_eq!("poem.txt", c.filename);
    assert!(c.case_sensitive);
}

#[test]
fn parse_ignore_case_flag() {
    let a = args(&["prog", "-i", "rUsT", "poem.txt"]);
    let c = Config::parse(&a).unwrap();
    assert_eq!("rUsT", c.query);
    assert_eq!("poem.txt", c.filename);
    assert!(!c.case_sensitive);
}

#[test]
fn parse_not_enough_arguments() {
    let a = args(&["prog", "only-one"]);
    let e = Config::parse(&a).unwrap_err();
    assert_eq!("Not enough arguments\nUsage:\nminigrep [-i] <QUERY> <FILE>", e);
    assert!(Config::parse(&args(&[])).is_err());
}

#[test]
fn parse_too_many_arguments() {
    let a = args(&["prog", "-i", "q", "f", "extra"]);
    let e = Config::parse(&a).unwrap_err();
    assert_eq!(format!("Too many arguments\n{}", USAGE), e);
}

#[test]
fn parse_invalid_option() {
    let a = args(&["prog", "-x", "q", "f"]);
    let e = Config::parse(&a).unwrap_err();
    assert_eq!(
        "First argument '-x' is not a valid option\nUsage:\nminigrep [-i] <QUERY> <FILE>",
        e
    );
    assert!(e.contains("'-x'"));
}
