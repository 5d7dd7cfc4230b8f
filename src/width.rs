use vstd::prelude::*;

use unicode_truncate::UnicodeTruncateStr;
use unicode_width::UnicodeWidthStr;

use crate::text::newlines;

verus! {

/// Columns that unicode-width gives the character `c`, a control character
/// counting as zero.
pub uninterp spec fn char_width(c: char) -> nat;

/// Columns taken by `s`: the sum of its characters' widths.
pub open spec fn str_width(s: Seq<char>) -> nat
    decreases s.len(),
{
    if s.len() == 0 {
        0
    } else {
        str_width(s.drop_last()) + char_width(s.last())
    }
}

/// Length of the longest prefix of `s` whose width is at most `max`.
pub open spec fn fit_len(s: Seq<char>, max: nat) -> nat
    decreases s.len(),
{
    if str_width(s) <= max {
        s.len()
    } else {
        fit_len(s.drop_last(), max)
    }
}

/// Width of the longest prefix of `s` that fits in `max` columns.
pub open spec fn fit_width(s: Seq<char>, max: nat) -> nat {
    str_width(s.take(fit_len(s, max) as int))
}

/// Relies on `UnicodeWidthStr::width` of unicode-width: the sum of the widths
/// of the characters, each control character counting as zero and none
/// counting more than two; printable ASCII characters count one each and a
/// newline none.
#[verifier::external_body]
pub fn display_width(s: &str) -> (r: usize)
    ensures
        r as nat == str_width(s@),
        r as nat <= 2 * s@.len(),
        s@.len() == 1 ==> r as nat == char_width(s@[0]),
        (forall|i: int|
            0 <= i < s@.len() ==> (' ' <= #[trigger] s@[i] <= '~' || s@[i] == '\n')) ==> r as nat
            == s@.len() - newlines(s@),
{
    s.width()
}

/// Relies on `UnicodeTruncateStr::unicode_truncate` of unicode-truncate: the
/// longest prefix of `s` whose width, summed over its characters' unicode-width
/// widths, is at most `max`, with that width; on printable ASCII, where every
/// character counts one column, that is the first `max` characters.
#[verifier::external_body]
pub fn truncate_to_width(s: &str, max: usize) -> (r: (&str, usize))
    ensures
        r.0@ == s@.take(fit_len(s@, max as nat) as int),
        r.1 as nat == str_width(r.0@),
        (forall|i: int| 0 <= i < s@.len() ==> ' ' <= #[trigger] s@[i] <= '~') ==> r.1 as nat == (
        if (max as nat) < s@.len() {
            max as nat
        } else {
            s@.len()
        }) && r.0@.len() == r.1,
{
    s.unicode_truncate(max)
}

pub proof fn lemma_fit_len_bounds(s: Seq<char>, max: nat)
    ensures
        fit_len(s, max) <= s.len(),
        fit_width(s, max) <= max,
        str_width(s) <= max <==> fit_len(s, max) == s.len(),
    decreases s.len(),
{
    if str_width(s) > max {
        if s.len() == 0 {
        } else {
            lemma_fit_len_bounds(s.drop_last(), max);
            assert(s.take(fit_len(s, max) as int) =~= s.drop_last().take(
                fit_len(s.drop_last(), max) as int,
            ));
        }
    } else {
        assert(s.take(s.len() as int) =~= s);
    }
}

/// Appending a character adds its width.
pub proof fn lemma_str_width_push(s: Seq<char>, c: char)
    ensures
        str_width(s.push(c)) == str_width(s) + char_width(c),
{
    assert(s.push(c).drop_last() =~= s);
}

pub proof fn lemma_str_width_append(a: Seq<char>, b: Seq<char>)
    ensures
        str_width(a + b) == str_width(a) + str_width(b),
    decreases b.len(),
{
    if b.len() > 0 {
        assert((a + b).drop_last() =~= a + b.drop_last());
        lemma_str_width_append(a, b.drop_last());
    } else {
        assert(a + b =~= a);
    }
}

/// Widths of prefixes never shrink.
pub proof fn lemma_str_width_prefix(s: Seq<char>, k: int)
    requires
        0 <= k <= s.len(),
    ensures
        str_width(s.take(k)) <= str_width(s),
{
    lemma_str_width_append(s.take(k), s.skip(k));
    assert(s.take(k) + s.skip(k) =~= s);
}

} // verus!
