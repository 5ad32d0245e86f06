//! Splitting a combined directory-and-pattern argument into its directory
//! part and its final component.
//!
//! Paths are modelled as plain text with `/` as the separator.  Trailing
//! separators are ignored; the final component is everything after the last
//! remaining separator; the directory part is everything before it, `""` for
//! a single relative component and `"/"` when only the root remains.
//! Whether the directory actually exists is for the caller to check.

use vstd::prelude::*;

use crate::errors::CommonError;

verus! {

/// The path separator.
pub open spec fn path_sep() -> char {
    '/'
}

/// `p` without its trailing separators.
pub open spec fn strip_trailing_seps(p: Seq<char>) -> Seq<char>
    decreases p.len(),
{
    if p.len() > 0 && p.last() == path_sep() {
        strip_trailing_seps(p.drop_last())
    } else {
        p
    }
}

/// Index of the rightmost occurrence of `c` in `s`, if any.
pub open spec fn rfind_char(s: Seq<char>, c: char) -> Option<int>
    decreases s.len(),
{
    if s.len() == 0 {
        None
    } else if s.last() == c {
        Some(s.len() - 1)
    } else {
        rfind_char(s.drop_last(), c)
    }
}

/// The final component of a path: what follows the last separator once
/// trailing separators are gone.  Empty for an empty path and for the root.
pub open spec fn spec_base_name(p: Seq<char>) -> Seq<char> {
    let s = strip_trailing_seps(p);
    match rfind_char(s, path_sep()) {
        None => s,
        Some(i) => s.skip(i + 1),
    }
}

/// The directory part of a path: what precedes the final component.
/// `None` when the path is empty or consists of separators only; `""` for a
/// single relative component; `"/"` when only the root precedes the
/// component.
pub open spec fn spec_parent_dir(p: Seq<char>) -> Option<Seq<char>> {
    let s = strip_trailing_seps(p);
    if s.len() == 0 {
        None
    } else {
        match rfind_char(s, path_sep()) {
            None => Some(Seq::empty()),
            Some(i) => {
                let d = strip_trailing_seps(s.take(i + 1));
                if d.len() == 0 {
                    Some(seq![path_sep()])
                } else {
                    Some(d)
                }
            },
        }
    }
}

/// The final component of a path, when it names a file: `None` when there
/// is no component left or the component is the current or the parent
/// directory.
pub open spec fn spec_file_name(p: Seq<char>) -> Option<Seq<char>> {
    let name = spec_base_name(p);
    if name.len() == 0 || name == seq!['.'] || name == seq!['.', '.'] {
        None
    } else {
        Some(name)
    }
}

/// Stripping is determined by the boundary: separators from `end` on, and
/// none right before it.
proof fn lemma_strip_exact(p: Seq<char>, end: int)
    requires
        0 <= end <= p.len(),
        forall|k: int| end <= k < p.len() ==> p[k] == path_sep(),
        end == 0 || p[end - 1] != path_sep(),
    ensures
        strip_trailing_seps(p) == p.take(end),
    decreases p.len(),
{
    if p.len() == end {
        assert(p.take(end) =~= p);
    } else {
        assert(p.last() == path_sep());
        assert(forall|k: int| 0 <= k < p.drop_last().len() ==> p.drop_last()[k] == p[k]);
        lemma_strip_exact(p.drop_last(), end);
        assert(p.drop_last().take(end) =~= p.take(end));
    }
}

/// `rfind_char` is determined by an occurrence with nothing after it.
proof fn lemma_rfind_exact(s: Seq<char>, c: char, i: int)
    requires
        0 <= i < s.len(),
        s[i] == c,
        forall|j: int| i < j < s.len() ==> s[j] != c,
    ensures
        rfind_char(s, c) == Some(i),
    decreases s.len(),
{
    if i < s.len() - 1 {
        assert(s.last() != c);
        assert(forall|k: int| 0 <= k < s.drop_last().len() ==> s.drop_last()[k] == s[k]);
        lemma_rfind_exact(s.drop_last(), c, i);
    }
}

/// When `c` occurs nowhere in `s`, `rfind_char` reports `None`.
proof fn lemma_rfind_none(s: Seq<char>, c: char)
    requires
        forall|j: int| 0 <= j < s.len() ==> s[j] != c,
    ensures
        rfind_char(s, c) is None,
    decreases s.len(),
{
    if s.len() > 0 {
        assert(forall|k: int| 0 <= k < s.drop_last().len() ==> s.drop_last()[k] == s[k]);
        lemma_rfind_none(s.drop_last(), c);
    }
}

/// Position right after the last non-separator within the first `upto`
/// characters of `s`.
fn strip_seps_end(s: &str, upto: usize) -> (end: usize)
    requires
        upto <= s@.len(),
    ensures
        end <= upto,
        strip_trailing_seps(s@.take(upto as int)) == s@.take(end as int),
        end > 0 ==> s@[end - 1] != path_sep(),
{
    let mut end = upto;
    while end > 0 && s.get_char(end - 1) == '/'
        invariant
            end <= upto,
            upto <= s@.len(),
            forall|k: int| end <= k < upto ==> s@[k] == path_sep(),
        decreases end,
    {
        end -= 1;
    }
    proof {
        let t = s@.take(upto as int);
        assert(forall|k: int| 0 <= k < t.len() ==> t[k] == s@[k]);
        lemma_strip_exact(t, end as int);
        assert(t.take(end as int) =~= s@.take(end as int));
    }
    end
}

/// Rightmost separator within the first `upto` characters of `s`.
fn rfind_sep(s: &str, upto: usize) -> (r: Option<usize>)
    requires
        upto <= s@.len(),
    ensures
        match r {
            Some(i) => i < upto && s@[i as int] == path_sep() && rfind_char(
                s@.take(upto as int),
                path_sep(),
            ) == Some(i as int),
            None => rfind_char(s@.take(upto as int), path_sep()) is None,
        },
{
    let ghost t = s@.take(upto as int);
    proof {
        assert(forall|k: int| 0 <= k < t.len() ==> t[k] == s@[k]);
    }
    let mut k = upto;
    while k > 0
        invariant
            k <= upto,
            upto <= s@.len(),
            t == s@.take(upto as int),
            forall|j: int| k <= j < upto ==> s@[j] != path_sep(),
        decreases k,
    {
        if s.get_char(k - 1) == '/' {
            proof {
                lemma_rfind_exact(t, path_sep(), k - 1);
            }
            return Some(k - 1);
        }
        k -= 1;
    }
    proof {
        lemma_rfind_none(t, path_sep());
    }
    None
}

/// Returns the directory part of `path`.
///
/// Fails with `CommonError::EmptyInput` when no directory part exists: the
/// path is empty or holds separators only.  Whether the directory exists on
/// disk is for the caller to check.
pub fn get_directory(path: &str) -> (r: Result<String, CommonError>)
    ensures
        match spec_parent_dir(path@) {
            Some(d) => r matches Ok(s) && s@ == d,
            None => r matches Err(e) && e == CommonError::EmptyInput,
        },
{
    let len = path.unicode_len();
    proof {
        assert(path@.take(len as int) =~= path@);
    }
    let end = strip_seps_end(path, len);
    if end == 0 {
        return Err(CommonError::EmptyInput);
    }
    match rfind_sep(path, end) {
        None => {
            let empty_dir = String::new();
            Ok(empty_dir)
        },
        Some(i) => {
            proof {
                assert(path@.take(end as int).take(i + 1) =~= path@.take(i + 1));
            }
            let dend = strip_seps_end(path, i + 1);
            if dend == 0 {
                let root = path.substring_char(i, i + 1);
                proof {
                    assert(root@ =~= seq![path_sep()]);
                }
                Ok(root.to_owned())
            } else {
                let dir = path.substring_char(0, dend);
                proof {
                    assert(dir@ =~= path@.take(dend as int));
                }
                Ok(dir.to_owned())
            }
        },
    }
}

/// Returns the final component of `path`.
///
/// Fails with `CommonError::InvalidNamePattern` when no component is left
/// once trailing separators are gone, or when the component is the current
/// or the parent directory.
pub fn get_filename(path: &str) -> (r: Result<String, CommonError>)
    ensures
        match spec_file_name(path@) {
            Some(n) => r matches Ok(s) && s@ == n,
            None => r matches Err(e) && e == CommonError::InvalidNamePattern,
        },
{
    let len = path.unicode_len();
    proof {
        assert(path@.take(len as int) =~= path@);
    }
    let end = strip_seps_end(path, len);
    let start = match rfind_sep(path, end) {
        Some(i) => i + 1,
        None => 0,
    };
    let ghost name = spec_base_name(path@);
    proof {
        assert(path@.take(end as int).skip(start as int) =~= path@.subrange(
            start as int,
            end as int,
        ));
        assert(name =~= path@.subrange(start as int, end as int));
        assert(seq!['.'].len() == 1);
        assert(seq!['.', '.'].len() == 2);
    }
    if end == start {
        return Err(CommonError::InvalidNamePattern);
    }
    if end - start == 1 && path.get_char(start) == '.' {
        proof {
            assert(name =~= seq!['.']);
        }
        return Err(CommonError::InvalidNamePattern);
    }
    if end - start == 2 && path.get_char(start) == '.' && path.get_char(start + 1) == '.' {
        proof {
            assert(name =~= seq!['.', '.']);
        }
        return Err(CommonError::InvalidNamePattern);
    }
    proof {
        if name == seq!['.'] {
            assert(name[0] == '.');
        }
        if name == seq!['.', '.'] {
            assert(name[0] == '.' && name[1] == '.');
        }
    }
    let piece = path.substring_char(start, end);
    Ok(piece.to_owned())
}

/// Splits a combined directory-and-pattern argument into the directory part
/// and the final component.
pub fn split_path_to_filename(path: &str) -> (r: Result<(String, String), CommonError>)
    ensures
        match (spec_parent_dir(path@), spec_file_name(path@)) {
            (Some(d), Some(n)) => r matches Ok(p) && p.0@ == d && p.1@ == n,
            (None, _) => r matches Err(e) && e == CommonError::EmptyInput,
            (Some(_), None) => r matches Err(e) && e == CommonError::InvalidNamePattern,
        },
{
    let directory = match get_directory(path) {
        Err(error) => {
            return Err(error);
        },
        Ok(directory) => directory,
    };
    let filename = match get_filename(path) {
        Err(error) => {
            return Err(error);
        },
        Ok(filename) => filename,
    };
    Ok((directory, filename))
}

} // verus!
