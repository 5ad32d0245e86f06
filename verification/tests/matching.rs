use mmv::matched::match_filename;

#[test]
fn match_filename_ok() {
    let check = |pattern: &str, filename: &str, fragments: Vec<&str>| {
        let matched = match_filename(filename, pattern).unwrap();
        assert_eq!(matched.filename, filename);
        assert_eq!(matched.fragments, fragments);
    };
    check("*", "", vec![""]);
    check("_A*B_", "_AB_", vec![""]);
    check("*_*", "A_B", vec!["A", "B"]);
    check("A_*", "A_B", vec!["B"]);
    check("A_B", "A_B", vec![]);
    check("*_*_*", "ABA_CA_BA", vec!["ABA", "CA", "BA"]);
}

#[test]
fn match_filename_none() {
    let check = |pattern: &str, filename: &str| {
        assert!(match_filename(filename, pattern).is_none());
    };
    check("*_*", "no underscore");
    check("123", "1234");
    check("123", "4123");
}

#[test]
fn wildcard_free_pattern_is_equality() {
    let matched = match_filename("exact.txt", "exact.txt").unwrap();
    assert_eq!(matched.filename, "exact.txt");
    assert!(matched.fragments.is_empty());
    assert!(match_filename("exact.txt.", "exact.txt").is_none());
    assert!(match_filename("exact.tx", "exact.txt").is_none());
    assert!(match_filename("", "exact.txt").is_none());
}

#[test]
fn lone_wildcard_captures_whole_filename() {
    let matched = match_filename("anything at all", "*").unwrap();
    assert_eq!(matched.fragments, vec!["anything at all"]);
    let empty = match_filename("", "*").unwrap();
    assert_eq!(empty.fragments, vec![""]);
}

#[test]
fn single_fragment_between_literals() {
    let matched = match_filename("AxB", "A*B").unwrap();
    assert_eq!(matched.fragments, vec!["x"]);
}

#[test]
fn leftmost_anchoring_on_repeated_literals() {
    // The literal after a wildcard is taken at its first occurrence, so the
    // first fragment stops at the first underscore.
    let matched = match_filename("a_b_c", "*_*").unwrap();
    assert_eq!(matched.fragments, vec!["a", "b_c"]);
}

#[test]
fn trailing_wildcard_consumes_rest() {
    let matched = match_filename("photo.jpeg", "photo.*").unwrap();
    assert_eq!(matched.fragments, vec!["jpeg"]);
}

#[test]
fn unicode_filenames_match_per_character() {
    let matched = match_filename("\u{43f}\u{440}\u{438}_\u{43c}\u{438}\u{440}", "*_*").unwrap();
    assert_eq!(
        matched.fragments,
        vec!["\u{43f}\u{440}\u{438}", "\u{43c}\u{438}\u{440}"]
    );
}
