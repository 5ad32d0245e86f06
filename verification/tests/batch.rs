use mmv::errors::CommonError;
use mmv::modified::ModifiedFilename;
use mmv::operations::{check_if_files_exist, match_and_modify_filenames};

fn run_batch(
    filenames: Vec<&str>,
    input_pattern: &str,
    output_pattern: &str,
) -> Result<Vec<(String, String)>, CommonError> {
    let owned: Vec<String> = filenames.into_iter().map(String::from).collect();
    let modified = match_and_modify_filenames(owned, input_pattern, output_pattern)?;
    Ok(modified.into_iter().map(|m| (m.origin, m.changed)).collect())
}

#[test]
fn match_and_modify_ok() {
    let check = |filename: &str, input_pattern: &str, output_pattern: &str, expected: &str| {
        let pairs = run_batch(vec![filename], input_pattern, output_pattern).unwrap();
        assert_eq!(pairs[0].1, expected);
    };
    check("sus_amogus", "*_*", "#2_#1", "amogus_sus");
    check("biba_boba_buba", "*_*_*", "#3-#1-#2", "buba-biba-boba");
    check("bruh", "*", "#1", "bruh");
}

#[test]
fn ok_simple() {
    let pairs = run_batch(vec!["b_a", "d_c", "lolo_bubu"], "*_*", "#2_#1").unwrap();
    assert_eq!(
        pairs,
        vec![
            (String::from("b_a"), String::from("a_b")),
            (String::from("d_c"), String::from("c_d")),
            (String::from("lolo_bubu"), String::from("bubu_lolo")),
        ]
    );

    let pairs = run_batch(
        vec![
            "\u{43f}\u{440}\u{438}\u{432}\u{435}\u{442}_\u{43c}\u{438}\u{440}!",
            "\u{43f}\u{440}\u{43e}\u{449}\u{430}\u{439}_\u{43c}\u{438}\u{440}\u{43e}\u{437}\u{434}\u{430}\u{43d}\u{438}\u{435}!",
        ],
        "*_*!",
        "#2, #1!",
    )
    .unwrap();
    assert_eq!(
        pairs[0].1,
        "\u{43c}\u{438}\u{440}, \u{43f}\u{440}\u{438}\u{432}\u{435}\u{442}!"
    );
    assert_eq!(
        pairs[1].1,
        "\u{43c}\u{438}\u{440}\u{43e}\u{437}\u{434}\u{430}\u{43d}\u{438}\u{435}, \u{43f}\u{440}\u{43e}\u{449}\u{430}\u{439}!"
    );

    let pairs = run_batch(
        vec!["\u{1f600}\u{1f603}_\u{1f604}\u{1f601}"],
        "*_*",
        "#2_#1",
    )
    .unwrap();
    assert_eq!(pairs[0].1, "\u{1f604}\u{1f601}_\u{1f600}\u{1f603}");
}

#[test]
fn ok_special() {
    let pairs = run_batch(
        vec!["#1_#2_#3", "*_*_*", "!??_?!?_!??"],
        "*_*_*",
        "#3#1#2",
    )
    .unwrap();
    assert_eq!(
        pairs,
        vec![
            (String::from("#1_#2_#3"), String::from("#3#1#2")),
            (String::from("*_*_*"), String::from("***")),
            (String::from("!??_?!?_!??"), String::from("!??!???!?")),
        ]
    );
}

#[test]
fn no_matched_files() {
    let out = run_batch(vec!["a"], "123", "#1");
    assert!(matches!(
        out,
        Err(CommonError::NoMatchingFiles { pattern }) if pattern == "123"
    ));
}

#[test]
fn non_matching_filenames_are_dropped() {
    let pairs = run_batch(vec!["keep_me", "skipped", "also_kept"], "*_*", "#2.#1").unwrap();
    assert_eq!(
        pairs,
        vec![
            (String::from("keep_me"), String::from("me.keep")),
            (String::from("also_kept"), String::from("kept.also")),
        ]
    );
}

#[test]
fn template_error_aborts_whole_batch() {
    let out = run_batch(vec!["a_b", "c_d"], "*_*", "#3");
    assert!(matches!(out, Err(CommonError::TooBigMarkerValue)));
}

fn pair(origin: &str, changed: &str) -> ModifiedFilename {
    ModifiedFilename {
        origin: String::from(origin),
        changed: String::from(changed),
    }
}

#[test]
fn existing_destination_aborts_batch() {
    let modified = vec![pair("b_a", "a_b"), pair("d_c", "c_d")];
    let out = check_if_files_exist(&modified, &vec![false, true]);
    assert!(matches!(
        out,
        Err(CommonError::FilenameAlreadyExists { filename }) if filename == "c_d"
    ));
    let first = check_if_files_exist(&modified, &vec![true, true]);
    assert!(matches!(
        first,
        Err(CommonError::FilenameAlreadyExists { filename }) if filename == "a_b"
    ));
}

#[test]
fn free_destinations_pass_collision_check() {
    let modified = vec![pair("b_a", "a_b"), pair("d_c", "c_d")];
    assert!(check_if_files_exist(&modified, &vec![false, false]).is_ok());
    assert!(check_if_files_exist(&vec![], &vec![]).is_ok());
}
