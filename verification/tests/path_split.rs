use mmv::errors::CommonError;
use mmv::manager::{join_path, FileManager};
use mmv::paths::{get_directory, get_filename, split_path_to_filename};

#[test]
fn test_get_directory() {
    let manager = FileManager::from("get_directory/");
    let check = |path_str: &str| {
        let submanager = manager.create_subdirectory(path_str);
        // Trailing separators carry no meaning, so the computed parent is
        // the subdirectory's path without them.
        assert_eq!(
            get_directory(&join_path(submanager.get_directory(), "foo")).unwrap(),
            submanager.get_directory().trim_end_matches('/')
        );
    };
    check("boo/");
    check("too/much/dirs/");
}

#[test]
fn test_get_filename() {
    let manager = FileManager::from("get_filename");
    let check = |directory: &str, name: &str| {
        let submanager = manager.create_subdirectory(directory);
        assert_eq!(
            get_filename(submanager.get_directory()).unwrap(),
            String::from(name)
        );
    };
    check("boo", "boo");
    check("mem/boo", "boo");
    check("too/much/dirs", "dirs");
}

#[test]
fn directory_part_of_plain_paths() {
    assert_eq!(get_directory("foo/bar.txt").unwrap(), "foo");
    assert_eq!(get_directory("a/b/c").unwrap(), "a/b");
    assert_eq!(get_directory("bar.txt").unwrap(), "");
    assert_eq!(get_directory("/bar.txt").unwrap(), "/");
    assert_eq!(get_directory("./x").unwrap(), ".");
}

#[test]
fn empty_paths_have_no_directory() {
    assert!(matches!(get_directory(""), Err(CommonError::EmptyInput)));
    assert!(matches!(get_directory("/"), Err(CommonError::EmptyInput)));
    assert!(matches!(get_directory("///"), Err(CommonError::EmptyInput)));
}

#[test]
fn filename_of_plain_paths() {
    assert_eq!(get_filename("foo/bar.txt").unwrap(), "bar.txt");
    assert_eq!(get_filename("bar.txt").unwrap(), "bar.txt");
    assert_eq!(get_filename("a/b/c/").unwrap(), "c");
}

#[test]
fn dot_components_are_no_filenames() {
    assert!(matches!(
        get_filename("../../"),
        Err(CommonError::InvalidNamePattern)
    ));
    assert!(matches!(get_filename(""), Err(CommonError::InvalidNamePattern)));
    assert!(matches!(get_filename("/"), Err(CommonError::InvalidNamePattern)));
    assert!(matches!(
        get_filename("a/.."),
        Err(CommonError::InvalidNamePattern)
    ));
    assert!(matches!(
        get_filename("a/."),
        Err(CommonError::InvalidNamePattern)
    ));
}

#[test]
fn split_gives_directory_and_pattern() {
    let (directory, pattern) = split_path_to_filename("files/*_*.txt").unwrap();
    assert_eq!(directory, "files");
    assert_eq!(pattern, "*_*.txt");
    assert!(matches!(
        split_path_to_filename(""),
        Err(CommonError::EmptyInput)
    ));
}
