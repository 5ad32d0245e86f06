//! The batch: matching every filename of a directory listing and rendering
//! the new names, in the order the filenames were supplied.

use vstd::prelude::*;

use crate::errors::CommonError;
use crate::matched::{match_filename, spec_match, strings_view, MatchedFilename};
use crate::modified::{
    modify_filename, spec_check_markers, spec_render, ModifiedFilename,
};

verus! {

/// Views of the matches held by a vector.
pub open spec fn matched_views(v: Seq<MatchedFilename>) -> Seq<(Seq<char>, Seq<Seq<char>>)> {
    v.map_values(|m: MatchedFilename| m@)
}

/// Views of the rendered pairs held by a vector.
pub open spec fn modified_views(v: Seq<ModifiedFilename>) -> Seq<(Seq<char>, Seq<char>)> {
    v.map_values(|m: ModifiedFilename| m@)
}

/// The matches a batch yields: every filename that matches the pattern,
/// with its fragments, in the order the filenames were supplied.
pub open spec fn spec_match_filenames(names: Seq<Seq<char>>, pattern: Seq<char>) -> Seq<
    (Seq<char>, Seq<Seq<char>>),
>
    decreases names.len(),
{
    if names.len() == 0 {
        Seq::empty()
    } else {
        let rest = spec_match_filenames(names.skip(1), pattern);
        match spec_match(names[0], pattern) {
            Some(frs) => seq![(names[0], frs)] + rest,
            None => rest,
        }
    }
}

/// The rendered pairs a batch of matches yields under a template, or the
/// error of the first match whose fragment count the template fails.
pub open spec fn spec_modify_filenames(
    ms: Seq<(Seq<char>, Seq<Seq<char>>)>,
    pattern: Seq<char>,
) -> Result<Seq<(Seq<char>, Seq<char>)>, CommonError>
    decreases ms.len(),
{
    if ms.len() == 0 {
        Ok(Seq::empty())
    } else {
        match spec_check_markers(pattern, ms[0].1.len()) {
            Err(e) => Err(e),
            Ok(()) => match spec_modify_filenames(ms.skip(1), pattern) {
                Err(e) => Err(e),
                Ok(rest) => Ok(seq![(ms[0].0, spec_render(pattern, ms[0].1))] + rest),
            },
        }
    }
}

/// Matches every filename against the pattern, keeping the successes in
/// their original order.
///
/// Fails with `CommonError::NoMatchingFiles` when nothing matched.
pub fn match_filenames(filenames: Vec<String>, pattern: &str) -> (r: Result<
    Vec<MatchedFilename>,
    CommonError,
>)
    ensures
        ({
            let ms = spec_match_filenames(strings_view(filenames@), pattern@);
            if ms.len() == 0 {
                r matches Err(CommonError::NoMatchingFiles { pattern: p }) && p@ == pattern@
            } else {
                r matches Ok(v) && matched_views(v@) == ms
            }
        }),
{
    let ghost namesv = strings_view(filenames@);
    let mut matched: Vec<MatchedFilename> = Vec::new();
    let count = filenames.len();
    let mut i: usize = 0;
    proof {
        assert(namesv.skip(0) =~= namesv);
        assert(matched_views(matched@) =~= Seq::<(Seq<char>, Seq<Seq<char>>)>::empty());
        assert(matched_views(matched@) + spec_match_filenames(namesv, pattern@)
            =~= spec_match_filenames(namesv, pattern@));
    }
    while i < count
        invariant
            i <= count,
            count == filenames@.len(),
            namesv == strings_view(filenames@),
            spec_match_filenames(namesv, pattern@) == matched_views(matched@)
                + spec_match_filenames(namesv.skip(i as int), pattern@),
        decreases count - i,
    {
        let ghost rem = namesv.skip(i as int);
        proof {
            assert(rem[0] == namesv[i as int]);
            assert(namesv[i as int] == filenames@[i as int]@);
            assert(rem.skip(1) =~= namesv.skip(i + 1));
        }
        let ghost old_views = matched_views(matched@);
        match match_filename(filenames[i].as_str(), pattern) {
            Some(m) => {
                matched.push(m);
                proof {
                    assert(matched_views(matched@) =~= old_views.push(m@));
                    let frs = spec_match(namesv[i as int], pattern@)->Some_0;
                    assert(old_views + (seq![(namesv[i as int], frs)]
                        + spec_match_filenames(namesv.skip(i + 1), pattern@))
                        =~= matched_views(matched@) + spec_match_filenames(
                        namesv.skip(i + 1),
                        pattern@,
                    ));
                }
            },
            None => {},
        }
        i += 1;
    }
    proof {
        assert(namesv.skip(count as int).len() == 0);
        assert(spec_match_filenames(namesv.skip(count as int), pattern@) =~= Seq::<
            (Seq<char>, Seq<Seq<char>>),
        >::empty());
        assert(matched_views(matched@) + Seq::<(Seq<char>, Seq<Seq<char>>)>::empty()
            =~= matched_views(matched@));
    }
    if matched.is_empty() {
        Err(CommonError::NoMatchingFiles { pattern: String::from_str(pattern) })
    } else {
        Ok(matched)
    }
}

/// Renders every match of the batch under the template, keeping the order.
///
/// The first match whose fragment count the template fails aborts the whole
/// batch with that match's error; no partial result is returned.
#[verifier::loop_isolation(false)]
pub fn modify_filenames(matched: Vec<MatchedFilename>, pattern: &str) -> (r: Result<
    Vec<ModifiedFilename>,
    CommonError,
>)
    ensures
        match spec_modify_filenames(matched_views(matched@), pattern@) {
            Ok(mods) => r matches Ok(v) && modified_views(v@) == mods,
            Err(e) => r matches Err(e2) && e2 == e,
        },
{
    let ghost orig = matched_views(matched@);
    let mut remaining = matched;
    let mut modified: Vec<ModifiedFilename> = Vec::new();
    proof {
        assert(modified_views(modified@) =~= Seq::<(Seq<char>, Seq<char>)>::empty());
        match spec_modify_filenames(orig, pattern@) {
            Ok(mods) => {
                assert(modified_views(modified@) + mods =~= mods);
            },
            Err(_) => {},
        }
    }
    while remaining.len() > 0
        invariant
            match spec_modify_filenames(matched_views(remaining@), pattern@) {
                Ok(rest) => spec_modify_filenames(orig, pattern@) == Ok::<
                    Seq<(Seq<char>, Seq<char>)>,
                    CommonError,
                >(modified_views(modified@) + rest),
                Err(e) => spec_modify_filenames(orig, pattern@) == Err::<
                    Seq<(Seq<char>, Seq<char>)>,
                    CommonError,
                >(e),
            },
        decreases remaining@.len(),
    {
        let ghost rem_views = matched_views(remaining@);
        let head = remaining.remove(0);
        proof {
            assert(matched_views(remaining@) =~= rem_views.skip(1));
            assert(rem_views[0] == head@);
        }
        let ghost old_done = modified_views(modified@);
        match modify_filename(head, pattern) {
            Err(error) => {
                proof {
                    assert(rem_views.len() > 0);
                    assert(spec_modify_filenames(rem_views, pattern@) == Err::<
                        Seq<(Seq<char>, Seq<char>)>,
                        CommonError,
                    >(error));
                }
                return Err(error);
            },
            Ok(pair) => {
                modified.push(pair);
                proof {
                    assert(modified_views(modified@) =~= old_done.push(pair@));
                    match spec_modify_filenames(rem_views.skip(1), pattern@) {
                        Err(_) => {},
                        Ok(rest) => {
                            assert(old_done + (seq![(head@.0, spec_render(pattern@, head@.1))]
                                + rest) =~= modified_views(modified@) + rest);
                        },
                    }
                }
            },
        }
    }
    proof {
        assert(matched_views(remaining@).len() == 0);
        match spec_modify_filenames(orig, pattern@) {
            Ok(mods) => {
                assert(modified_views(modified@) + Seq::<(Seq<char>, Seq<char>)>::empty()
                    =~= modified_views(modified@));
            },
            Err(_) => {},
        }
    }
    Ok(modified)
}

/// Matches every filename and renders the new names in one step.
///
/// Fails with `CommonError::NoMatchingFiles` when nothing matched, and with
/// the first match's marker error when the template fails validation.
pub fn match_and_modify_filenames(
    filenames: Vec<String>,
    input_pattern: &str,
    output_pattern: &str,
) -> (r: Result<Vec<ModifiedFilename>, CommonError>)
    ensures
        ({
            let ms = spec_match_filenames(strings_view(filenames@), input_pattern@);
            if ms.len() == 0 {
                r matches Err(CommonError::NoMatchingFiles { pattern: p }) && p@
                    == input_pattern@
            } else {
                match spec_modify_filenames(ms, output_pattern@) {
                    Ok(mods) => r matches Ok(v) && modified_views(v@) == mods,
                    Err(e) => r matches Err(e2) && e2 == e,
                }
            }
        }),
{
    match match_filenames(filenames, input_pattern) {
        Err(error) => Err(error),
        Ok(matched) => modify_filenames(matched, output_pattern),
    }
}

/// Position of the first destination that already exists, if any.
pub open spec fn first_collision(exists: Seq<bool>) -> Option<int>
    decreases exists.len(),
{
    if exists.len() == 0 {
        None
    } else if exists[0] {
        Some(0)
    } else {
        match first_collision(exists.skip(1)) {
            None => None,
            Some(i) => Some(i + 1),
        }
    }
}

/// `first_collision` returns the least index that is set, or `None` when
/// none is.
proof fn lemma_first_collision_spec(exists: Seq<bool>)
    ensures
        match first_collision(exists) {
            Some(i) => 0 <= i < exists.len() && exists[i] && (forall|j: int|
                0 <= j < i ==> !exists[j]),
            None => forall|j: int| 0 <= j < exists.len() ==> !exists[j],
        },
    decreases exists.len(),
{
    if exists.len() > 0 && !exists[0] {
        lemma_first_collision_spec(exists.skip(1));
        match first_collision(exists.skip(1)) {
            None => {
                assert forall|j: int| 0 <= j < exists.len() implies !exists[j] by {
                    if j >= 1 {
                        assert(!exists.skip(1)[j - 1]);
                    }
                }
            },
            Some(i) => {
                assert(exists[i + 1] == exists.skip(1)[i]);
                assert forall|j: int| 0 <= j < i + 1 implies !exists[j] by {
                    if j >= 1 {
                        assert(!exists.skip(1)[j - 1]);
                    }
                }
            },
        }
    }
}

/// Judges a batch's destinations before anything is moved: `exists[i]` says
/// whether the destination of `modified[i]` is already taken.
///
/// Fails with `CommonError::FilenameAlreadyExists` naming the first taken
/// destination; succeeds exactly when none is taken.  The caller gathers
/// the flags from the filesystem and, on success, performs the moves.
pub fn check_if_files_exist(modified: &Vec<ModifiedFilename>, exists: &Vec<bool>) -> (r: Result<
    (),
    CommonError,
>)
    requires
        modified@.len() == exists@.len(),
    ensures
        match first_collision(exists@) {
            None => r is Ok,
            Some(i) => r matches Err(CommonError::FilenameAlreadyExists { filename })
                && filename@ == modified@[i].changed@,
        },
{
    let count = exists.len();
    let mut i: usize = 0;
    proof {
        lemma_first_collision_spec(exists@);
    }
    while i < count
        invariant
            i <= count,
            count == exists@.len(),
            modified@.len() == exists@.len(),
            match first_collision(exists@) {
                None => forall|j: int| 0 <= j < exists@.len() ==> !exists@[j],
                Some(c) => 0 <= c < exists@.len() && exists@[c] && (forall|j: int|
                    0 <= j < c ==> !exists@[j]),
            },
            forall|j: int| 0 <= j < i ==> !exists@[j],
        decreases count - i,
    {
        if exists[i] {
            proof {
                match first_collision(exists@) {
                    None => {
                        assert(!exists@[i as int]);
                    },
                    Some(c) => {
                        assert(c == i as int);
                    },
                }
            }
            let name = &modified[i].changed;
            return Err(CommonError::FilenameAlreadyExists { filename: name.clone() });
        }
        i += 1;
    }
    proof {
        match first_collision(exists@) {
            None => {},
            Some(c) => {
                assert(!exists@[c]);
            },
        }
    }
    Ok(())
}

} // verus!
