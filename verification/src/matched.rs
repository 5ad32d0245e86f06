//! Matching a filename against a wildcard pattern.
//!
//! A pattern is plain text in which `*` is the only metacharacter.  The
//! pattern is split on `*` into literal segments; matching walks the filename
//! left to right, anchoring each literal at its leftmost occurrence in the
//! remaining suffix and capturing what each wildcard consumed.  No
//! backtracking is performed: a literal that could also match further right
//! is always taken at its first position.

use vstd::prelude::*;

use crate::text::{
    find_char, find_char_from, find_sub, find_sub_from, lemma_find_char_spec, occurs_at,
};

verus! {

/// The wildcard metacharacter.
pub open spec fn wildcard() -> char {
    '*'
}

/// Views of the strings held by a vector.
pub open spec fn strings_view(v: Seq<String>) -> Seq<Seq<char>> {
    v.map_values(|s: String| s@)
}

/// The literal segments of a pattern: the pieces between the wildcards.
/// A pattern with `n` wildcards yields `n + 1` segments, some possibly empty.
pub open spec fn split_on_star(p: Seq<char>) -> Seq<Seq<char>>
    decreases p.len(),
    via split_on_star_decreases
{
    match find_char(p, wildcard()) {
        None => seq![p],
        Some(i) => seq![p.take(i)] + split_on_star(p.skip(i + 1)),
    }
}

#[via_fn]
proof fn split_on_star_decreases(p: Seq<char>) {
    lemma_find_char_spec(p, wildcard());
}

/// What matching a suffix of the filename against the remaining segments
/// yields: the captured fragments, or `None` when the suffix does not match.
///
/// The first segment must sit at the very start of the suffix.  Each later
/// segment is anchored at its leftmost occurrence after that; the characters
/// skipped over become one fragment.  An empty later segment found at offset
/// zero stands for a wildcard that reaches the end of the suffix, so the
/// whole suffix is captured.  After the last segment nothing may remain.
pub open spec fn match_segments(suffix: Seq<char>, segs: Seq<Seq<char>>) -> Option<
    Seq<Seq<char>>,
>
    decreases segs.len(),
{
    if segs.len() == 0 {
        None
    } else if !segs[0].is_prefix_of(suffix) {
        None
    } else {
        let rest = suffix.skip(segs[0].len() as int);
        if segs.len() == 1 {
            if rest.len() == 0 {
                Some(Seq::empty())
            } else {
                None
            }
        } else {
            match find_sub(rest, segs[1]) {
                None => None,
                Some(found) => {
                    let cut = if segs[1].len() == 0 && found == 0 {
                        rest.len() as int
                    } else {
                        found
                    };
                    match match_segments(rest.skip(cut), segs.skip(1)) {
                        None => None,
                        Some(more) => Some(seq![rest.take(cut)] + more),
                    }
                },
            }
        }
    }
}

/// The fragments a filename yields under a pattern, or `None` when it does
/// not match.
pub open spec fn spec_match(name: Seq<char>, pattern: Seq<char>) -> Option<Seq<Seq<char>>> {
    match_segments(name, split_on_star(pattern))
}

/// Filename data after matching: the original filename and the fragments
/// captured by the pattern's wildcards, in order of appearance.
#[derive(Debug, PartialEq, Clone)]
pub struct MatchedFilename {
    /// Original filename
    pub filename: String,
    /// Extracted fragments according to pattern
    pub fragments: Vec<String>,
}

impl View for MatchedFilename {
    type V = (Seq<char>, Seq<Seq<char>>);

    open spec fn view(&self) -> Self::V {
        (self.filename@, strings_view(self.fragments@))
    }
}

impl MatchedFilename {
    /// A match of `filename` that captured no fragments yet.
    pub fn new(filename: String) -> (r: Self)
        ensures
            r@ == (filename@, Seq::<Seq<char>>::empty()),
    {
        let r = Self { filename, fragments: Vec::new() };
        proof {
            assert(strings_view(r.fragments@) =~= Seq::<Seq<char>>::empty());
        }
        r
    }
}

/// Splits the pattern on the wildcard into its literal segments.
fn split_pattern(pattern: &str) -> (segs: Vec<String>)
    ensures
        strings_view(segs@) == split_on_star(pattern@),
        segs@.len() >= 1,
{
    let len = pattern.unicode_len();
    let mut segs: Vec<String> = Vec::new();
    let mut start: usize = 0;
    proof {
        assert(pattern@.skip(0) =~= pattern@);
        assert(strings_view(segs@) =~= Seq::<Seq<char>>::empty());
        assert(strings_view(segs@) + split_on_star(pattern@) =~= split_on_star(pattern@));
    }
    loop
        invariant
            start <= len,
            len == pattern@.len(),
            split_on_star(pattern@) =~= strings_view(segs@) + split_on_star(
                pattern@.skip(start as int),
            ),
        decreases len - start,
    {
        match find_char_from(pattern, start, '*') {
            Some(j) => {
                let piece = pattern.substring_char(start, j);
                segs.push(piece.to_owned());
                proof {
                    let rem = pattern@.skip(start as int);
                    assert(rem.take(j - start) =~= piece@);
                    assert(rem.skip(j - start + 1) =~= pattern@.skip(j + 1));
                    assert(strings_view(segs@) =~= strings_view(segs@.take(
                        segs@.len() - 1,
                    )).push(piece@));
                    assert(split_on_star(pattern@) =~= strings_view(segs@) + split_on_star(
                        pattern@.skip(j + 1),
                    ));
                }
                start = j + 1;
            },
            None => {
                let piece = pattern.substring_char(start, len);
                segs.push(piece.to_owned());
                proof {
                    let rem = pattern@.skip(start as int);
                    assert(rem =~= piece@);
                    assert(strings_view(segs@) =~= strings_view(segs@.take(
                        segs@.len() - 1,
                    )).push(piece@));
                    assert(split_on_star(pattern@) =~= strings_view(segs@));
                }
                return segs;
            },
        }
    }
}

/// Matches `filename` against `pattern` and returns the captured fragments,
/// or `None` when the filename does not match.
///
/// The result holds one fragment per wildcard of the pattern, in order.
pub fn match_filename(filename: &str, pattern: &str) -> (r: Option<MatchedFilename>)
    ensures
        match spec_match(filename@, pattern@) {
            Some(frs) => r matches Some(m) && m@ == (filename@, frs),
            None => r is None,
        },
{
    let segs = split_pattern(pattern);
    let seg_count = segs.len();
    let name_len = filename.unicode_len();
    let ghost segsv = split_on_star(pattern@);
    let mut fragments: Vec<String> = Vec::new();
    let mut pos: usize = 0;
    let mut i: usize = 0;
    proof {
        assert(filename@.skip(0) =~= filename@);
        assert(segsv.skip(0) =~= segsv);
        assert(strings_view(fragments@) =~= Seq::<Seq<char>>::empty());
        match match_segments(filename@, segsv) {
            Some(frs) => {
                assert(strings_view(fragments@) + frs =~= frs);
            },
            None => {},
        }
    }
    loop
        invariant
            i < segs@.len(),
            seg_count == segs@.len(),
            pos <= name_len,
            name_len == filename@.len(),
            strings_view(segs@) == segsv,
            segsv == split_on_star(pattern@),
            match match_segments(filename@.skip(pos as int), segsv.skip(i as int)) {
                None => spec_match(filename@, pattern@) is None,
                Some(more) => spec_match(filename@, pattern@) == Some(
                    strings_view(fragments@) + more,
                ),
            },
        decreases segs@.len() - i,
    {
        let ghost suffix = filename@.skip(pos as int);
        let ghost rem_segs = segsv.skip(i as int);
        proof {
            assert(rem_segs[0] == segsv[i as int]);
            assert(segsv[i as int] == segs@[i as int]@);
        }
        if !occurs_at(filename, pos, segs[i].as_str()) {
            return None;
        }
        proof {
            assert(segs@[i as int]@.len() <= suffix.len());
        }
        let seg_len = segs[i].as_str().unicode_len();
        pos = pos + seg_len;
        let ghost rest = suffix.skip(segs@[i as int]@.len() as int);
        proof {
            assert(rest =~= filename@.skip(pos as int));
        }
        if i + 1 == seg_count {
            proof {
                assert(rem_segs.len() == 1);
            }
            if pos == name_len {
                let matched = MatchedFilename {
                    filename: String::from_str(filename),
                    fragments,
                };
                proof {
                    assert(rest.len() == 0);
                    match spec_match(filename@, pattern@) {
                        Some(frs) => {
                            assert(strings_view(matched.fragments@) + Seq::<Seq<char>>::empty()
                                =~= strings_view(matched.fragments@));
                        },
                        None => {},
                    }
                }
                return Some(matched);
            } else {
                proof {
                    assert(rest.len() != 0);
                }
                return None;
            }
        }
        proof {
            assert(rem_segs.len() >= 2);
            assert(rem_segs[1] == segsv[i + 1]);
            assert(segsv[i + 1] == segs@[i + 1]@);
        }
        match find_sub_from(filename, pos, segs[i + 1].as_str()) {
            None => {
                return None;
            },
            Some(j0) => {
                let next_len = segs[i + 1].as_str().unicode_len();
                let j = if next_len == 0 && j0 == pos {
                    name_len
                } else {
                    j0
                };
                let ghost cut = j - pos as int;
                proof {
                    assert(find_sub(rest, rem_segs[1]) == Some(j0 - pos as int));
                }
                let piece = filename.substring_char(pos, j);
                let ghost old_frags = strings_view(fragments@);
                fragments.push(piece.to_owned());
                proof {
                    assert(rest.take(cut) =~= piece@);
                    assert(rest.skip(cut) =~= filename@.skip(j as int));
                    assert(rem_segs.skip(1) =~= segsv.skip(i + 1));
                    assert(strings_view(fragments@) =~= old_frags.push(piece@));
                    match match_segments(filename@.skip(j as int), segsv.skip(i + 1)) {
                        None => {},
                        Some(more) => {
                            assert(match_segments(suffix, rem_segs) == Some(
                                seq![rest.take(cut)] + more,
                            ));
                            assert(old_frags + (seq![rest.take(cut)] + more) =~= strings_view(
                                fragments@,
                            ) + more);
                        },
                    }
                }
                pos = j;
                i = i + 1;
            },
        }
    }
}

/// Number of wildcards in a pattern.
pub open spec fn star_count(p: Seq<char>) -> nat
    decreases p.len(),
{
    if p.len() == 0 {
        0
    } else {
        (if p[0] == wildcard() {
            1nat
        } else {
            0nat
        }) + star_count(p.skip(1))
    }
}

/// Wildcards before position `k` do not exist, so the count restarts there.
proof fn lemma_star_count_skip(p: Seq<char>, k: int)
    requires
        0 <= k <= p.len(),
        forall|j: int| 0 <= j < k ==> p[j] != wildcard(),
    ensures
        star_count(p) == star_count(p.skip(k)),
    decreases k,
{
    if k == 0 {
        assert(p.skip(0) =~= p);
    } else {
        assert(p.skip(1).skip(k - 1) =~= p.skip(k));
        assert(forall|j: int| 0 <= j < k - 1 ==> p.skip(1)[j] == p[j + 1]);
        lemma_star_count_skip(p.skip(1), k - 1);
    }
}

/// A pattern with `n` wildcards splits into `n + 1` literal segments.
proof fn lemma_split_len(p: Seq<char>)
    ensures
        split_on_star(p).len() == star_count(p) + 1,
    decreases p.len(),
{
    lemma_find_char_spec(p, wildcard());
    match find_char(p, wildcard()) {
        None => {
            lemma_star_count_skip(p, p.len() as int);
            assert(p.skip(p.len() as int) =~= Seq::<char>::empty());
        },
        Some(i) => {
            lemma_star_count_skip(p, i);
            assert(p.skip(i).skip(1) =~= p.skip(i + 1));
            assert(p.skip(i)[0] == p[i]);
            lemma_split_len(p.skip(i + 1));
        },
    }
}

/// A successful match captures exactly one fragment per segment boundary.
proof fn lemma_match_segments_count(suffix: Seq<char>, segs: Seq<Seq<char>>)
    ensures
        match_segments(suffix, segs) matches Some(frs) ==> frs.len() + 1 == segs.len(),
    decreases segs.len(),
{
    if segs.len() >= 2 && segs[0].is_prefix_of(suffix) {
        let rest = suffix.skip(segs[0].len() as int);
        match find_sub(rest, segs[1]) {
            None => {},
            Some(found) => {
                let cut = if segs[1].len() == 0 && found == 0 {
                    rest.len() as int
                } else {
                    found
                };
                lemma_match_segments_count(rest.skip(cut), segs.skip(1));
            },
        }
    }
}

/// A filename that matches a pattern yields exactly one fragment per
/// wildcard of the pattern.
pub proof fn lemma_fragment_count(name: Seq<char>, pattern: Seq<char>)
    ensures
        spec_match(name, pattern) matches Some(frs) ==> frs.len() == star_count(pattern),
{
    lemma_split_len(pattern);
    lemma_match_segments_count(name, split_on_star(pattern));
}

/// The pattern's literal segments interleaved with a match's fragments:
/// segment, fragment, segment, ..., fragment, segment.
pub open spec fn interleave(segs: Seq<Seq<char>>, frs: Seq<Seq<char>>) -> Seq<char>
    decreases segs.len(),
{
    if segs.len() == 0 {
        Seq::empty()
    } else if segs.len() == 1 {
        segs[0]
    } else {
        segs[0] + frs[0] + interleave(segs.skip(1), frs.skip(1))
    }
}

/// A successful match consumes the whole suffix: its segments interleaved
/// with the captured fragments give the suffix back.
proof fn lemma_match_segments_reconstruct(suffix: Seq<char>, segs: Seq<Seq<char>>)
    ensures
        match_segments(suffix, segs) matches Some(frs) ==> suffix == interleave(segs, frs),
    decreases segs.len(),
{
    if segs.len() == 0 || !segs[0].is_prefix_of(suffix) {
    } else {
        let rest = suffix.skip(segs[0].len() as int);
        if segs.len() == 1 {
            if rest.len() == 0 {
                assert(suffix =~= segs[0]);
            }
        } else {
            match find_sub(rest, segs[1]) {
                None => {},
                Some(found) => {
                    let cut = if segs[1].len() == 0 && found == 0 {
                        rest.len() as int
                    } else {
                        found
                    };
                    crate::text::lemma_find_sub_spec(rest, segs[1]);
                    lemma_match_segments_reconstruct(rest.skip(cut), segs.skip(1));
                    match match_segments(rest.skip(cut), segs.skip(1)) {
                        None => {},
                        Some(more) => {
                            let frs = seq![rest.take(cut)] + more;
                            assert(frs[0] == rest.take(cut));
                            assert(frs.skip(1) =~= more);
                            assert(suffix =~= segs[0] + rest);
                            assert(rest =~= rest.take(cut) + rest.skip(cut));
                            assert(interleave(segs, frs) == segs[0] + frs[0] + interleave(
                                segs.skip(1),
                                frs.skip(1),
                            ));
                            assert(suffix =~= segs[0] + frs[0] + interleave(
                                segs.skip(1),
                                frs.skip(1),
                            ));
                        },
                    }
                },
            }
        }
    }
}

/// The fragments of a match are exactly what the wildcards consumed: the
/// pattern's literal segments interleaved with the fragments give back the
/// whole filename.
pub proof fn lemma_match_reconstructs_filename(name: Seq<char>, pattern: Seq<char>)
    ensures
        spec_match(name, pattern) matches Some(frs) ==> name == interleave(
            split_on_star(pattern),
            frs,
        ),
{
    lemma_match_segments_reconstruct(name, split_on_star(pattern));
}

/// A pattern without a wildcard matches exactly one filename: itself, with
/// no fragments captured.
pub proof fn lemma_match_without_wildcard(name: Seq<char>, pattern: Seq<char>)
    requires
        !pattern.contains(wildcard()),
    ensures
        spec_match(name, pattern) == (if name == pattern {
            Some(Seq::<Seq<char>>::empty())
        } else {
            Option::<Seq<Seq<char>>>::None
        }),
{
    assert(forall|j: int| 0 <= j < pattern.len() ==> pattern[j] != wildcard());
    crate::text::lemma_find_char_none(pattern, wildcard());
    let segs = split_on_star(pattern);
    assert(segs =~= seq![pattern]);
    if pattern.is_prefix_of(name) {
        let rest = name.skip(pattern.len() as int);
        if rest.len() == 0 {
            assert(name =~= pattern);
        } else {
            assert(name.len() > pattern.len());
        }
    } else {
        assert(name != pattern);
    }
}

/// The pattern that is one lone wildcard matches every filename, capturing
/// the whole filename as the only fragment (an empty filename gives an
/// empty fragment).
pub proof fn lemma_match_lone_wildcard(name: Seq<char>)
    ensures
        spec_match(name, seq![wildcard()]) == Some(seq![name]),
{
    let p = seq![wildcard()];
    assert(find_char(p, wildcard()) == Some(0int));
    assert(p.skip(1) =~= Seq::<char>::empty());
    assert(find_char(Seq::<char>::empty(), wildcard()) is None);
    let empty = Seq::<char>::empty();
    let segs = split_on_star(p);
    assert(p.take(0) =~= empty);
    assert(split_on_star(Seq::<char>::empty()) =~= seq![empty]);
    assert(segs =~~= seq![empty, empty]);
    assert(empty.is_prefix_of(name));
    let rest = name.skip(0);
    assert(rest =~= name);
    assert(empty.is_prefix_of(rest));
    assert(find_sub(rest, empty) == Some(0int));
    let cut = rest.len() as int;
    assert(rest.skip(cut) =~= empty);
    assert(segs.skip(1) =~= seq![empty]);
    assert(empty.is_prefix_of(rest.skip(cut)));
    assert(match_segments(rest.skip(cut), segs.skip(1)) == Some(Seq::<Seq<char>>::empty()));
    assert(rest.take(cut) =~= name);
    assert(seq![rest.take(cut)] + Seq::<Seq<char>>::empty() =~= seq![name]);
}

/// A pattern of two wildcards around one separator character never matches
/// a filename in which the separator does not occur.
pub proof fn lemma_wildcard_pair_needs_separator(name: Seq<char>, sep: char)
    requires
        sep != wildcard(),
        !name.contains(sep),
    ensures
        spec_match(name, seq![wildcard(), sep, wildcard()]) is None,
{
    let p = seq![wildcard(), sep, wildcard()];
    let empty = Seq::<char>::empty();
    assert(find_char(p, wildcard()) == Some(0int));
    assert(p.skip(1) =~= seq![sep, wildcard()]);
    let q = seq![sep, wildcard()];
    assert(find_char(q.skip(1), wildcard()) == Some(0int)) by {
        assert(q.skip(1) =~= seq![wildcard()]);
    }
    assert(find_char(q, wildcard()) == Some(1int));
    assert(q.take(1) =~= seq![sep]);
    assert(q.skip(2) =~= empty);
    assert(find_char(empty, wildcard()) is None);
    let segs = split_on_star(p);
    assert(p.take(0) =~= empty);
    assert(q.skip(1).take(0) =~= empty);
    assert(split_on_star(empty) =~= seq![empty]);
    assert(split_on_star(q) =~~= seq![seq![sep], empty]);
    assert(segs =~~= seq![empty, seq![sep], empty]);
    assert(empty.is_prefix_of(name));
    let rest = name.skip(0);
    assert(rest =~= name);
    assert forall|j: int| 0 <= j <= name.len() implies !seq![sep].is_prefix_of(
        name.skip(j),
    ) by {
        if j < name.len() {
            if seq![sep].is_prefix_of(name.skip(j)) {
                assert(name.skip(j).subrange(0, 1)[0] == name.skip(j)[0]);
                assert(seq![sep][0] == sep);
                assert(name[j] == sep);
                assert(name.contains(sep));
            }
        }
    }
    crate::text::lemma_find_sub_none(name, seq![sep]);
    assert(find_sub(rest, segs[1]) is None);
}

} // verus!
