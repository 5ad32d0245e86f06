//! Character-level search primitives shared by the matcher and the path
//! splitter: leftmost occurrence of a character or of a substring, and a
//! prefix test, each with a spec-level counterpart.

use vstd::prelude::*;

verus! {

/// Index of the leftmost occurrence of `c` in `s`, if any.
pub open spec fn find_char(s: Seq<char>, c: char) -> Option<int>
    decreases s.len(),
{
    if s.len() == 0 {
        None
    } else if s[0] == c {
        Some(0)
    } else {
        match find_char(s.skip(1), c) {
            None => None,
            Some(i) => Some(i + 1),
        }
    }
}

/// Index of the leftmost position of `s` where `t` occurs as a substring,
/// if any.  An empty `t` occurs at position 0 of every sequence.
pub open spec fn find_sub(s: Seq<char>, t: Seq<char>) -> Option<int>
    decreases s.len(),
{
    if t.is_prefix_of(s) {
        Some(0)
    } else if s.len() == 0 {
        None
    } else {
        match find_sub(s.skip(1), t) {
            None => None,
            Some(i) => Some(i + 1),
        }
    }
}

/// `find_char` returns the least index holding `c`, or `None` when `c` does
/// not occur at all.
pub proof fn lemma_find_char_spec(s: Seq<char>, c: char)
    ensures
        match find_char(s, c) {
            Some(i) => 0 <= i < s.len() && s[i] == c && (forall|j: int|
                0 <= j < i ==> s[j] != c),
            None => forall|j: int| 0 <= j < s.len() ==> s[j] != c,
        },
    decreases s.len(),
{
    if s.len() == 0 {
    } else if s[0] == c {
    } else {
        lemma_find_char_spec(s.skip(1), c);
        match find_char(s.skip(1), c) {
            None => {
                assert forall|j: int| 0 <= j < s.len() implies s[j] != c by {
                    if j >= 1 {
                        assert(s.skip(1)[j - 1] != c);
                    }
                }
            },
            Some(i) => {
                assert(s[i + 1] == s.skip(1)[i]);
                assert forall|j: int| 0 <= j < i + 1 implies s[j] != c by {
                    if j >= 1 {
                        assert(s.skip(1)[j - 1] != c);
                    }
                }
            },
        }
    }
}

/// `find_char` is determined by where `c` occurs: an occurrence with nothing
/// before it is the result.
pub proof fn lemma_find_char_exact(s: Seq<char>, c: char, i: int)
    requires
        0 <= i < s.len(),
        s[i] == c,
        forall|j: int| 0 <= j < i ==> s[j] != c,
    ensures
        find_char(s, c) == Some(i),
{
    lemma_find_char_spec(s, c);
}

/// When `c` occurs nowhere in `s`, `find_char` reports `None`.
pub proof fn lemma_find_char_none(s: Seq<char>, c: char)
    requires
        forall|j: int| 0 <= j < s.len() ==> s[j] != c,
    ensures
        find_char(s, c) is None,
{
    lemma_find_char_spec(s, c);
}

/// `find_sub` returns the least index where `t` occurs, or `None` when `t`
/// occurs nowhere in `s`.
pub proof fn lemma_find_sub_spec(s: Seq<char>, t: Seq<char>)
    ensures
        match find_sub(s, t) {
            Some(i) => 0 <= i && i + t.len() <= s.len() && t.is_prefix_of(s.skip(i))
                && (forall|j: int| 0 <= j < i ==> !t.is_prefix_of(s.skip(j))),
            None => forall|j: int| 0 <= j <= s.len() ==> !t.is_prefix_of(s.skip(j)),
        },
    decreases s.len(),
{
    if t.is_prefix_of(s) {
        assert(s.skip(0) =~= s);
    } else if s.len() == 0 {
        assert(s.skip(0) =~= s);
    } else {
        lemma_find_sub_spec(s.skip(1), t);
        assert forall|j: int| 1 <= j <= s.len() implies #[trigger] s.skip(j) =~= s.skip(1).skip(
            j - 1,
        ) by {}
        assert(s.skip(0) =~= s);
        match find_sub(s.skip(1), t) {
            None => {
                assert forall|j: int| 0 <= j <= s.len() implies !t.is_prefix_of(
                    s.skip(j),
                ) by {
                    if j >= 1 {
                        assert(!t.is_prefix_of(s.skip(1).skip(j - 1)));
                    }
                }
            },
            Some(i) => {
                assert(t.is_prefix_of(s.skip(i + 1)));
                assert forall|j: int| 0 <= j < i + 1 implies !t.is_prefix_of(
                    s.skip(j),
                ) by {
                    if j >= 1 {
                        assert(!t.is_prefix_of(s.skip(1).skip(j - 1)));
                    }
                }
            },
        }
    }
}

/// `find_sub` is determined by where `t` occurs: an occurrence with nothing
/// before it is the result.
pub proof fn lemma_find_sub_exact(s: Seq<char>, t: Seq<char>, i: int)
    requires
        0 <= i,
        i + t.len() <= s.len(),
        t.is_prefix_of(s.skip(i)),
        forall|j: int| 0 <= j < i ==> !t.is_prefix_of(s.skip(j)),
    ensures
        find_sub(s, t) == Some(i),
{
    lemma_find_sub_spec(s, t);
}

/// When `t` occurs nowhere in `s`, `find_sub` reports `None`.
pub proof fn lemma_find_sub_none(s: Seq<char>, t: Seq<char>)
    requires
        forall|j: int| 0 <= j <= s.len() ==> !t.is_prefix_of(s.skip(j)),
    ensures
        find_sub(s, t) is None,
{
    lemma_find_sub_spec(s, t);
}

/// Does `t` occur in `s` starting at character position `i`?
pub fn occurs_at(s: &str, i: usize, t: &str) -> (b: bool)
    requires
        i <= s@.len(),
    ensures
        b == t@.is_prefix_of(s@.skip(i as int)),
{
    let s_len = s.unicode_len();
    let t_len = t.unicode_len();
    if t_len > s_len - i {
        return false;
    }
    let mut j: usize = 0;
    while j < t_len
        invariant
            j <= t_len,
            i + t_len <= s_len,
            s_len == s@.len(),
            t_len == t@.len(),
            forall|k: int| 0 <= k < j ==> s@[i + k] == t@[k],
        decreases t_len - j,
    {
        if s.get_char(i + j) != t.get_char(j) {
            assert(s@.skip(i as int)[j as int] == s@[i + j]);
            return false;
        }
        j += 1;
    }
    assert(t@ =~= s@.skip(i as int).subrange(0, t@.len() as int));
    true
}

/// Leftmost position `>= from` in `s` holding the character `c`.
pub fn find_char_from(s: &str, from: usize, c: char) -> (r: Option<usize>)
    requires
        from <= s@.len(),
    ensures
        match r {
            Some(j) => from <= j < s@.len() && s@[j as int] == c && find_char(
                s@.skip(from as int),
                c,
            ) == Some(j - from),
            None => find_char(s@.skip(from as int), c) is None,
        },
{
    let s_len = s.unicode_len();
    let mut j = from;
    while j < s_len
        invariant
            from <= j <= s_len,
            s_len == s@.len(),
            forall|k: int| from <= k < j ==> s@[k] != c,
        decreases s_len - j,
    {
        if s.get_char(j) == c {
            proof {
                let rel = s@.skip(from as int);
                assert(rel[j - from] == s@[j as int]);
                assert forall|k: int| 0 <= k < j - from implies rel[k] != c by {
                    assert(rel[k] == s@[from + k]);
                }
                lemma_find_char_exact(rel, c, j - from);
            }
            return Some(j);
        }
        j += 1;
    }
    proof {
        let rel = s@.skip(from as int);
        assert forall|k: int| 0 <= k < rel.len() implies rel[k] != c by {
            assert(rel[k] == s@[from + k]);
        }
        lemma_find_char_none(rel, c);
    }
    None
}

/// Leftmost position `>= from` in `s` where `t` occurs as a substring.
pub fn find_sub_from(s: &str, from: usize, t: &str) -> (r: Option<usize>)
    requires
        from <= s@.len(),
    ensures
        match r {
            Some(j) => from <= j && j + t@.len() <= s@.len() && find_sub(
                s@.skip(from as int),
                t@,
            ) == Some(j - from),
            None => find_sub(s@.skip(from as int), t@) is None,
        },
{
    let s_len = s.unicode_len();
    let mut j = from;
    loop
        invariant
            from <= j <= s_len,
            s_len == s@.len(),
            from <= s@.len(),
            forall|k: int| from <= k < j ==> !t@.is_prefix_of(s@.skip(k)),
        decreases s_len - j,
    {
        if occurs_at(s, j, t) {
            proof {
                let rel = s@.skip(from as int);
                assert(rel.skip(j - from) =~= s@.skip(j as int));
                assert forall|k: int| 0 <= k < j - from implies !t@.is_prefix_of(
                    rel.skip(k),
                ) by {
                    assert(rel.skip(k) =~= s@.skip(from + k));
                }
                lemma_find_sub_exact(rel, t@, j - from);
            }
            return Some(j);
        }
        if j == s_len {
            proof {
                let rel = s@.skip(from as int);
                assert forall|k: int| 0 <= k <= rel.len() implies !t@.is_prefix_of(
                    rel.skip(k),
                ) by {
                    assert(rel.skip(k) =~= s@.skip(from + k));
                }
                lemma_find_sub_none(rel, t@);
            }
            return None;
        }
        j += 1;
    }
}

} // verus!
