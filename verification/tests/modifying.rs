use mmv::errors::CommonError;
use mmv::matched::MatchedFilename;
use mmv::modified::{check_markers_correctness, modify_filename};

#[test]
fn modify_filename_ok() {
    let check = |filename: &str, fragments: Vec<&str>, pattern: &str, result_filename: &str| {
        let modified = modify_filename(
            MatchedFilename {
                filename: String::from(filename),
                fragments: fragments.into_iter().map(String::from).collect(),
            },
            pattern,
        )
        .unwrap();
        assert_eq!(filename, modified.origin);
        assert_eq!(result_filename, modified.changed);
    };
    check("abo_ba", vec!["abo", "ba"], "#2_#1", "ba_abo");
    check(
        "money_pahnut_***",
        vec!["money", "pahnut", "***"],
        "#3_#2_#1",
        "***_pahnut_money",
    );
}

#[test]
fn marker_correctness_checker() {
    let check = check_markers_correctness;
    assert!(check("memi", 0).is_ok());
    assert!(check("#1 228", 1).is_ok());
    assert!(check("#aboba", 0).is_ok());
    assert!(check("#-123", 0).is_ok());
    assert!(check("#123", 1).is_err());
}

#[test]
fn markers_within_range_validate() {
    assert!(check_markers_correctness("#1 #2 #3", 3).is_ok());
    assert!(matches!(
        check_markers_correctness("#0", 3),
        Err(CommonError::TooBigMarkerValue)
    ));
    assert!(matches!(
        check_markers_correctness("#4", 3),
        Err(CommonError::TooBigMarkerValue)
    ));
}

#[test]
fn marker_digits_over_machine_range_are_invalid() {
    assert!(matches!(
        check_markers_correctness("#99999999999999999999999999", 3),
        Err(CommonError::InvalidMarkersValue)
    ));
}

#[test]
fn rendering_reorders_fragments() {
    let modified = modify_filename(
        MatchedFilename {
            filename: String::from("abo_ba"),
            fragments: vec![String::from("abo"), String::from("ba")],
        },
        "#2_#1",
    )
    .unwrap();
    assert_eq!(modified.changed, "ba_abo");
}

#[test]
fn rendering_keeps_plain_text_and_lone_sign() {
    let modified = modify_filename(
        MatchedFilename {
            filename: String::from("x"),
            fragments: vec![String::from("x")],
        },
        "pre #1 post # end",
    )
    .unwrap();
    assert_eq!(modified.changed, "pre x post # end");
}

#[test]
fn substituted_text_is_not_rescanned() {
    // A fragment that itself looks like a marker is copied verbatim.
    let modified = modify_filename(
        MatchedFilename {
            filename: String::from("#2_y"),
            fragments: vec![String::from("#2"), String::from("y")],
        },
        "#1",
    )
    .unwrap();
    assert_eq!(modified.changed, "#2");
}

#[test]
fn validation_error_aborts_modification() {
    let out = modify_filename(
        MatchedFilename {
            filename: String::from("a_b"),
            fragments: vec![String::from("a"), String::from("b")],
        },
        "#3_#1",
    );
    assert!(matches!(out, Err(CommonError::TooBigMarkerValue)));
}
