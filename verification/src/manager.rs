//! Path bookkeeping for the managed directories the test suites work in.
//!
//! A manager names one directory under the fixed test-data root and can
//! derive managers for subdirectories.  Creating, clearing and removing the
//! directories on disk is filesystem work left to the caller; here only the
//! paths are computed.

use vstd::prelude::*;

use crate::paths::path_sep;

verus! {

/// Joining two path fragments with the separator, as paths are joined:
/// an absolute right side replaces the left side entirely.
pub open spec fn spec_join(a: Seq<char>, b: Seq<char>) -> Seq<char> {
    if b.len() > 0 && b[0] == path_sep() {
        b
    } else if a.len() == 0 {
        b
    } else if a.last() == path_sep() {
        a + b
    } else {
        a + seq![path_sep()] + b
    }
}

/// The directory all managed test directories live under.
pub open spec fn spec_test_data_root() -> Seq<char> {
    "./tests/test_data/unit_tests"@
}

/// Joins two path fragments, inserting the separator where needed.
pub fn join_path(a: &str, b: &str) -> (r: String)
    ensures
        r@ == spec_join(a@, b@),
{
    let b_len = b.unicode_len();
    if b_len > 0 && b.get_char(0) == '/' {
        return String::from_str(b);
    }
    let a_len = a.unicode_len();
    if a_len == 0 {
        return String::from_str(b);
    }
    let mut out = String::from_str(a);
    if a.get_char(a_len - 1) != '/' {
        out.append("/");
        proof {
            reveal_strlit("/");
            assert("/"@ =~= seq![path_sep()]);
            assert(out@ =~= a@ + seq![path_sep()]);
        }
    }
    out.append(b);
    proof {
        if a@.last() != path_sep() {
            assert(out@ =~= a@ + seq![path_sep()] + b@);
        }
    }
    out
}

/// The directory all managed test directories live under.
pub fn get_working_directory() -> (r: String)
    ensures
        r@ == spec_test_data_root(),
{
    String::from_str("./tests/test_data/unit_tests")
}

/// Names one directory under the test-data root, remembering both the full
/// path and the name relative to the root.
pub struct FileManager {
    working_directory: String,
    relative_name: String,
}

impl View for FileManager {
    type V = (Seq<char>, Seq<char>);

    closed spec fn view(&self) -> Self::V {
        (self.working_directory@, self.relative_name@)
    }
}

impl FileManager {
    /// A manager for the given directory under the test-data root.
    pub fn new(working_directory: String) -> (r: Self)
        ensures
            r@ == (
                spec_join(spec_test_data_root(), working_directory@),
                working_directory@,
            ),
    {
        let joined = join_path(get_working_directory().as_str(), working_directory.as_str());
        FileManager { working_directory: joined, relative_name: working_directory }
    }

    /// A manager for the given directory under the test-data root.
    pub fn from(working_directory: &str) -> (r: Self)
        ensures
            r@ == (
                spec_join(spec_test_data_root(), working_directory@),
                working_directory@,
            ),
    {
        Self::new(String::from_str(working_directory))
    }

    /// The full path of the managed directory.
    pub fn get_directory(&self) -> (r: &String)
        ensures
            r@ == self@.0,
    {
        &self.working_directory
    }

    /// A manager for a subdirectory of this manager's directory.
    pub fn create_subdirectory(&self, path: &str) -> (r: Self)
        ensures
            r@ == (
                spec_join(spec_test_data_root(), spec_join(self@.1, path@)),
                spec_join(self@.1, path@),
            ),
    {
        Self::new(join_path(self.relative_name.as_str(), path))
    }
}

} // verus!
