use minigrep::{contains, search, search_case_insensitive, search_case_sensitive, Match};

#[test]
fn case_sensitive() {
    let query = "duct";
    let contents = "\
Rust:
safe, fast, productive.
Pick three.";

    assert_eq!(
        vec![Match { line: 2, text: "safe, fast, productive." }],
        search_case_sensitive(query, contents)
    );
}

#[test]
fn case_insensitive() {
    let query = "rUsT";
    let contents = "\
Rust:
safe, fast, productive.
Pick three.
Trust me.";

    assert_eq!(
        vec![Match { line: 1, text: "Rust:" }, Match { line: 4, text: "Trust me." }],
        search_case_insensitive(query, contents)
    );
}

#[test]
fn search_dispatches_on_case_flag() {
    let contents = "Rust:\nsafe, fast, productive.\nPick three.\nTrust me.";
    assert_eq!(vec![Match::new(4, "Trust me.")], search("rust", contents, true));
    assert_eq!(
        vec![Match::new(1, "Rust:"), Match::new(4, "Trust me.")],
        search("rust", contents, false)
    );
}

#[test]
fn sensitive_matches_are_a_subset_of_insensitive_matches() {
    let contents = "Rust:\nsafe, fast, productive.\nPick three.\nTrust me.\nRUST";
    let exact = search("Rust", contents, true);
    let folded = search("Rust", contents, false);
    assert_eq!(vec![Match::new(1, "Rust:")], exact);
    for m in &exact {
        assert!(folded.contains(m));
    }
    assert_eq!(3, folded.len());
}

#[test]
fn sensitive_matches_hold_query_in_ascending_order() {
    let contents = "abc\nxbx\nb\n\nbbb";
    let r = search_case_sensitive("b", contents);
    let lines: Vec<u64> = r.iter().map(|m| m.line).collect();
    assert_eq!(vec![1, 2, 3, 5], lines);
    for m in &r {
        assert!(m.text.contains("b"));
    }
}

#[test]
fn empty_query_matches_every_line() {
    let contents = "one\n\nthree\n";
    let expected = vec![Match::new(1, "one"), Match::new(2, ""), Match::new(3, "three")];
    assert_eq!(expected, search("", contents, true));
    assert_eq!(expected, search("", contents, false));
}

#[test]
fn empty_contents_has_no_matches() {
    assert_eq!(Vec::<Match>::new(), search("", "", true));
    assert_eq!(Vec::<Match>::new(), search("x", "", false));
}

#[test]
fn no_match_gives_empty_result() {
    assert_eq!(Vec::<Match>::new(), search("zzz", "abc\ndef", true));
}

#[test]
fn crlf_endings_are_removed_from_lines() {
    let contents = "alpha\r\nbeta\r\ngamma\r";
    assert_eq!(
        vec![Match::new(1, "alpha"), Match::new(2, "beta"), Match::new(3, "gamma\r")],
        search("a", contents, true)
    );
}

#[test]
fn trailing_newline_adds_no_line() {
    assert_eq!(vec![Match::new(2, "b")], search("b", "a\nb\n", true));
    assert_eq!(
        vec![Match::new(1, "x"), Match::new(2, "")],
        search("", "x\n\n", true)
    );
}

#[test]
fn case_insensitive_query_is_lowercased_too() {
    let contents = "ÀB\nàb\nab";
    assert_eq!(
        vec![Match::new(1, "ÀB"), Match::new(2, "àb")],
        search_case_insensitive("Àb", contents)
    );
}

#[test]
fn match_equality_compares_line_and_text() {
    assert_eq!(Match::new(3, "x"), Match::new(3, "x"));
    assert_ne!(Match::new(3, "x"), Match::new(4, "x"));
    assert_ne!(Match::new(3, "x"), Match::new(3, "y"));
}

#[test]
fn contains_finds_substrings() {
    assert!(contains("productive", "duct"));
    assert!(contains("abc", ""));
    assert!(contains("", ""));
    assert!(!contains("", "a"));
    assert!(!contains("ab", "abc"));
    assert!(!contains("abc", "ac"));
    assert!(contains("aab", "ab"));
}

#[test]
fn final_sigma_lowercases_differently_from_a_lone_sigma() {
    assert_eq!(vec![Match::new(1, "ΑΣ")], search("Σ", "ΑΣ", true));
    assert_eq!(Vec::<Match>::new(), search("Σ", "ΑΣ", false));
}
