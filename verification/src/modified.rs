//! Validating and rendering an output template.
//!
//! A template is plain text in which `#` followed by one or more decimal
//! digits is a marker: `#k` stands for the `k`-th captured fragment
//! (1-indexed).  A `#` not followed by a digit is ordinary text.  Validation
//! checks every marker against the available fragment count; rendering then
//! replaces each marker with its fragment, never re-scanning substituted
//! text.

use vstd::prelude::*;

use crate::errors::CommonError;
use crate::matched::{strings_view, MatchedFilename};

verus! {

/// The character that introduces a marker.
pub open spec fn marker_sign() -> char {
    '#'
}

/// Is `c` a decimal digit?
pub open spec fn is_marker_digit(c: char) -> bool {
    48 <= c as u32 && c as u32 <= 57
}

/// Numeric value of a decimal digit.
pub open spec fn digit_val(c: char) -> nat {
    (c as u32 - 48) as nat
}

/// Length of the run of decimal digits at the start of `t`.
pub open spec fn digit_run(t: Seq<char>) -> nat
    decreases t.len(),
{
    if t.len() == 0 || !is_marker_digit(t[0]) {
        0
    } else {
        1 + digit_run(t.skip(1))
    }
}

/// Value of a sequence of decimal digits, most significant first.
pub open spec fn digits_value(ds: Seq<char>) -> nat
    decreases ds.len(),
{
    if ds.len() == 0 {
        0
    } else {
        digits_value(ds.take(ds.len() - 1)) * 10 + digit_val(ds.last())
    }
}

/// Does `t` begin with a marker: the marker sign and at least one digit?
pub open spec fn marker_at(t: Seq<char>) -> bool {
    t.len() >= 2 && t[0] == marker_sign() && is_marker_digit(t[1])
}

/// The run of digits at the start of `t` is never longer than `t`.
proof fn lemma_digit_run_le(t: Seq<char>)
    ensures
        digit_run(t) <= t.len(),
    decreases t.len(),
{
    if t.len() > 0 && is_marker_digit(t[0]) {
        lemma_digit_run_le(t.skip(1));
    }
}

/// `digit_run` is determined by its boundary: `n` digits followed by the
/// end of the text or by a non-digit.
proof fn lemma_digit_run_exact(t: Seq<char>, n: int)
    requires
        0 <= n <= t.len(),
        forall|k: int| 0 <= k < n ==> is_marker_digit(t[k]),
        n == t.len() || !is_marker_digit(t[n]),
    ensures
        digit_run(t) == n,
    decreases n,
{
    if n == 0 {
    } else {
        assert(forall|k: int| 0 <= k < t.skip(1).len() ==> t.skip(1)[k] == t[k + 1]);
        lemma_digit_run_exact(t.skip(1), n - 1);
    }
}

/// Reading more digits never makes the value smaller.
proof fn lemma_digits_value_mono(ds: Seq<char>, m: int)
    requires
        0 <= m <= ds.len(),
    ensures
        digits_value(ds.take(m)) <= digits_value(ds),
    decreases ds.len() - m,
{
    if m == ds.len() {
        assert(ds.take(m) =~= ds);
    } else {
        assert(ds.take(m + 1).take(m) =~= ds.take(m));
        assert(ds.take(m + 1).last() == ds[m]);
        lemma_digits_value_mono(ds, m + 1);
    }
}

/// Scans the template left to right and judges every marker: `Ok` when each
/// one parses into a machine integer between 1 and `max`, otherwise the
/// error of the leftmost offending marker.
pub open spec fn spec_check_markers(t: Seq<char>, max: nat) -> Result<(), CommonError>
    decreases t.len(),
    via spec_check_markers_decreases
{
    if t.len() == 0 {
        Ok(())
    } else if marker_at(t) {
        let d = digit_run(t.skip(1));
        let v = digits_value(t.skip(1).take(d as int));
        if v > usize::MAX as nat {
            Err(CommonError::InvalidMarkersValue)
        } else if v == 0 || v > max {
            Err(CommonError::TooBigMarkerValue)
        } else {
            spec_check_markers(t.skip(1 + d as int), max)
        }
    } else {
        spec_check_markers(t.skip(1), max)
    }
}

#[via_fn]
proof fn spec_check_markers_decreases(t: Seq<char>, max: nat) {
    if t.len() > 0 {
        lemma_digit_run_le(t.skip(1));
    }
}

/// The text the template renders to: markers replaced by their fragments,
/// everything else kept verbatim.  Meaningful once `spec_check_markers`
/// accepted the template for `frags.len()`.
pub open spec fn spec_render(t: Seq<char>, frags: Seq<Seq<char>>) -> Seq<char>
    decreases t.len(),
    via spec_render_decreases
{
    if t.len() == 0 {
        Seq::empty()
    } else if marker_at(t) {
        let d = digit_run(t.skip(1));
        let v = digits_value(t.skip(1).take(d as int));
        frags[v as int - 1] + spec_render(t.skip(1 + d as int), frags)
    } else {
        seq![t[0]] + spec_render(t.skip(1), frags)
    }
}

#[via_fn]
proof fn spec_render_decreases(t: Seq<char>, frags: Seq<Seq<char>>) {
    if t.len() > 0 {
        lemma_digit_run_le(t.skip(1));
    }
}

/// Is `c` a decimal digit?
fn is_digit_char(c: char) -> (b: bool)
    ensures
        b == is_marker_digit(c),
{
    let u = c as u32;
    48 <= u && u <= 57
}

/// Length of the run of decimal digits in `s` starting at `from`.
fn digit_run_at(s: &str, from: usize) -> (n: usize)
    requires
        from <= s@.len(),
    ensures
        n == digit_run(s@.skip(from as int)),
        from + n <= s@.len(),
        forall|k: int| from <= k < from + n ==> is_marker_digit(s@[k]),
{
    let len = s.unicode_len();
    let mut j = from;
    while j < len && is_digit_char(s.get_char(j))
        invariant
            from <= j <= len,
            len == s@.len(),
            forall|k: int| from <= k < j ==> is_marker_digit(s@[k]),
        decreases len - j,
    {
        j += 1;
    }
    proof {
        let rel = s@.skip(from as int);
        assert(forall|k: int| 0 <= k < rel.len() ==> rel[k] == s@[from + k]);
        lemma_digit_run_exact(rel, j - from);
    }
    j - from
}

/// Parses the `n` digits of `s` starting at `from`; `None` when their value
/// does not fit into a machine integer.
fn parse_marker_value(s: &str, from: usize, n: usize) -> (r: Option<usize>)
    requires
        from + n <= s@.len(),
        forall|k: int| from <= k < from + n ==> is_marker_digit(s@[k]),
    ensures
        ({
            let v = digits_value(s@.subrange(from as int, from + n));
            match r {
                Some(u) => u == v,
                None => v > usize::MAX as nat,
            }
        }),
{
    let ghost whole = s@.subrange(from as int, from + n);
    let len = s.unicode_len();
    let mut acc: usize = 0;
    let mut j: usize = 0;
    while j < n
        invariant
            0 <= j <= n,
            len == s@.len(),
            from + n <= s@.len(),
            forall|k: int| from <= k < from + n ==> is_marker_digit(s@[k]),
            whole == s@.subrange(from as int, from + n),
            acc == digits_value(whole.take(j as int)),
        decreases n - j,
    {
        let c = s.get_char(from + j);
        let d = (c as u32 - 48) as usize;
        proof {
            assert(whole[j as int] == s@[from + j]);
            assert(d == digit_val(s@[from + j]));
            assert(whole.take(j + 1).take(j as int) =~= whole.take(j as int));
            assert(whole.take(j + 1).last() == whole[j as int]);
        }
        let shifted = match acc.checked_mul(10) {
            Some(x) => x,
            None => {
                proof {
                    assert(digits_value(whole.take(j + 1)) > usize::MAX as nat);
                    lemma_digits_value_mono(whole, j + 1);
                }
                return None;
            },
        };
        acc = match shifted.checked_add(d) {
            Some(x) => x,
            None => {
                proof {
                    assert(digits_value(whole.take(j + 1)) > usize::MAX as nat);
                    lemma_digits_value_mono(whole, j + 1);
                }
                return None;
            },
        };
        j += 1;
    }
    proof {
        assert(whole.take(n as int) =~= whole);
    }
    Some(acc)
}

/// Returns `Ok` when every marker of the template is in range.
///
/// A marker whose digits overflow a machine integer gives
/// `CommonError::InvalidMarkersValue`; one whose value is zero or greater
/// than `marker_max` gives `CommonError::TooBigMarkerValue`.  The leftmost
/// offending marker decides.
pub fn check_markers_correctness(pattern: &str, marker_max: usize) -> (r: Result<
    (),
    CommonError,
>)
    ensures
        r == spec_check_markers(pattern@, marker_max as nat),
{
    let len = pattern.unicode_len();
    let mut pos: usize = 0;
    proof {
        assert(pattern@.skip(0) =~= pattern@);
    }
    while pos < len
        invariant
            pos <= len,
            len == pattern@.len(),
            spec_check_markers(pattern@, marker_max as nat) == spec_check_markers(
                pattern@.skip(pos as int),
                marker_max as nat,
            ),
        decreases len - pos,
    {
        let ghost rel = pattern@.skip(pos as int);
        proof {
            assert(rel[0] == pattern@[pos as int]);
            if rel.len() >= 2 {
                assert(rel[1] == pattern@[pos + 1]);
            }
        }
        if pattern.get_char(pos) == '#' && pos + 1 < len && is_digit_char(
            pattern.get_char(pos + 1),
        ) {
            assert(marker_at(rel));
            let d = digit_run_at(pattern, pos + 1);
            proof {
                assert(pattern@.skip(pos + 1) =~= rel.skip(1));
                assert(rel.skip(1).take(d as int) =~= pattern@.subrange(
                    pos + 1,
                    pos + 1 + d,
                ));
            }
            match parse_marker_value(pattern, pos + 1, d) {
                None => {
                    return Err(CommonError::InvalidMarkersValue);
                },
                Some(v) => {
                    if v == 0 || v > marker_max {
                        return Err(CommonError::TooBigMarkerValue);
                    }
                    proof {
                        assert(rel.skip(1 + d) =~= pattern@.skip(pos + 1 + d));
                    }
                    pos = pos + 1 + d;
                },
            }
        } else {
            proof {
                assert(!marker_at(rel));
                assert(rel.skip(1) =~= pattern@.skip(pos + 1));
            }
            pos = pos + 1;
        }
    }
    proof {
        assert(pattern@.skip(pos as int).len() == 0);
    }
    Ok(())
}

/// Filename data after rendering: the original filename and the new name
/// the template produced for it.
#[derive(Debug)]
pub struct ModifiedFilename {
    /// Original filename
    pub origin: String,
    /// New filename rendered from the template
    pub changed: String,
}

impl View for ModifiedFilename {
    type V = (Seq<char>, Seq<char>);

    open spec fn view(&self) -> Self::V {
        (self.origin@, self.changed@)
    }
}

/// Renders a validated template: every marker `#k` becomes fragment `k`,
/// all other characters are kept verbatim, and substituted fragment text is
/// never re-scanned for further markers.
pub fn render_template(fragments: &Vec<String>, template: &str) -> (r: String)
    requires
        spec_check_markers(template@, strings_view(fragments@).len()) is Ok,
    ensures
        r@ == spec_render(template@, strings_view(fragments@)),
{
    let ghost frags_v = strings_view(fragments@);
    let ghost max = frags_v.len();
    let len = template.unicode_len();
    let mut out = String::new();
    let mut pos: usize = 0;
    proof {
        assert(template@.skip(0) =~= template@);
        assert(out@ + spec_render(template@, frags_v) =~= spec_render(template@, frags_v));
    }
    while pos < len
        invariant
            pos <= len,
            len == template@.len(),
            max == strings_view(fragments@).len(),
            frags_v == strings_view(fragments@),
            spec_check_markers(template@.skip(pos as int), max) is Ok,
            out@ + spec_render(template@.skip(pos as int), frags_v) == spec_render(
                template@,
                frags_v,
            ),
        decreases len - pos,
    {
        let ghost rel = template@.skip(pos as int);
        proof {
            assert(rel[0] == template@[pos as int]);
            if rel.len() >= 2 {
                assert(rel[1] == template@[pos + 1]);
            }
        }
        if template.get_char(pos) == '#' && pos + 1 < len && is_digit_char(
            template.get_char(pos + 1),
        ) {
            assert(marker_at(rel));
            let d = digit_run_at(template, pos + 1);
            proof {
                assert(template@.skip(pos + 1) =~= rel.skip(1));
                assert(rel.skip(1).take(d as int) =~= template@.subrange(
                    pos + 1,
                    pos + 1 + d,
                ));
            }
            let v = match parse_marker_value(template, pos + 1, d) {
                Some(v) => v,
                None => {
                    proof {
                        assert(false);
                    }
                    0
                },
            };
            let ghost old_out = out@;
            out.append(fragments[v - 1].as_str());
            proof {
                assert(frags_v[v - 1] == fragments@[v - 1]@);
                assert(rel.skip(1 + d as int) =~= template@.skip(pos + 1 + d));
                assert(spec_render(rel, frags_v) == frags_v[v - 1] + spec_render(
                    template@.skip(pos + 1 + d),
                    frags_v,
                ));
                assert(old_out + (frags_v[v - 1] + spec_render(
                    template@.skip(pos + 1 + d),
                    frags_v,
                )) =~= out@ + spec_render(template@.skip(pos + 1 + d), frags_v));
            }
            pos = pos + 1 + d;
        } else {
            let ghost old_out = out@;
            let piece = template.substring_char(pos, pos + 1);
            out.append(piece);
            proof {
                assert(!marker_at(rel));
                assert(rel.skip(1) =~= template@.skip(pos + 1));
                assert(piece@ =~= seq![rel[0]]);
                assert(spec_render(rel, frags_v) == seq![rel[0]] + spec_render(
                    template@.skip(pos + 1),
                    frags_v,
                ));
                assert(old_out + (seq![rel[0]] + spec_render(template@.skip(pos + 1), frags_v))
                    =~= out@ + spec_render(template@.skip(pos + 1), frags_v));
            }
            pos = pos + 1;
        }
    }
    proof {
        assert(template@.skip(pos as int).len() == 0);
        assert(spec_render(template@.skip(pos as int), frags_v) =~= Seq::<char>::empty());
        assert(out@ + Seq::<char>::empty() =~= out@);
    }
    out
}

/// Turns a match into the pair of old and new filename.
///
/// The template is first validated against the match's own fragment count;
/// a validation error aborts and is returned unchanged, so rendering itself
/// cannot fail.
pub fn modify_filename(matched: MatchedFilename, pattern: &str) -> (r: Result<
    ModifiedFilename,
    CommonError,
>)
    ensures
        match spec_check_markers(pattern@, matched@.1.len()) {
            Ok(()) => r matches Ok(m) && m@ == (matched@.0, spec_render(pattern@, matched@.1)),
            Err(e) => r matches Err(e2) && e2 == e,
        },
{
    let marker_max_value = matched.fragments.len();
    match check_markers_correctness(pattern, marker_max_value) {
        Err(error) => Err(error),
        Ok(()) => {
            let changed = render_template(&matched.fragments, pattern);
            Ok(ModifiedFilename { origin: matched.filename, changed })
        },
    }
}

} // verus!
