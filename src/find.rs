use vstd::prelude::*;

use crate::page::Page;
use crate::text::{
    byte_len, char_len, char_len_spec, chars_of, lemma_byte_len_append, lemma_byte_len_prefix,
    lemma_len_le_byte_len, lemma_lines_shape, lines_of, newlines, string_of,
};
use crate::width::{display_width, str_width};

verus! {

/// `needle` occurs in `s` starting at character `i`.
pub open spec fn matches_at(s: Seq<char>, needle: Seq<char>, i: int) -> bool {
    0 <= i && i + needle.len() <= s.len() && s.subrange(i, i + needle.len()) == needle
}

/// Byte offsets of the occurrences of `needle` in `s` that start at
/// character `i` or later, overlapping ones included, in order.
pub open spec fn occurrences_from(s: Seq<char>, needle: Seq<char>, i: int) -> Seq<nat>
    decreases s.len() + 1 - i,
{
    if i < 0 || i > s.len() {
        Seq::<nat>::empty()
    } else if matches_at(s, needle, i) {
        seq![byte_len(s.take(i))] + occurrences_from(s, needle, i + 1)
    } else {
        occurrences_from(s, needle, i + 1)
    }
}

/// Number of occurrences of `needle` in `s` from character `i` on, each
/// search going on after the end of the occurrence found; an empty needle
/// occurs at every character boundary.
pub open spec fn count_from(s: Seq<char>, needle: Seq<char>, i: int) -> nat
    decreases s.len() + 1 - i,
{
    if i < 0 || i > s.len() {
        0
    } else if matches_at(s, needle, i) {
        1 + count_from(
            s,
            needle,
            i + if needle.len() == 0 {
                1
            } else {
                needle.len() as int
            },
        )
    } else {
        count_from(s, needle, i + 1)
    }
}

/// `s` with every occurrence of `from` replaced by `to`, searching from the
/// left and going on after each occurrence replaced. An empty `from` occurs
/// before every character and at the end.
pub open spec fn replaced(s: Seq<char>, from: Seq<char>, to: Seq<char>) -> Seq<char>
    decreases s.len(),
{
    if from.len() == 0 {
        if s.len() == 0 {
            to
        } else {
            to + seq![s[0]] + replaced(s.skip(1), from, to)
        }
    } else if s.len() < from.len() {
        s
    } else if s.take(from.len() as int) == from {
        to + replaced(s.skip(from.len() as int), from, to)
    } else {
        seq![s[0]] + replaced(s.skip(1), from, to)
    }
}

/// Number of characters of `s` whose encoding ends at or before byte `k`.
pub open spec fn char_floor(s: Seq<char>, k: nat) -> nat
    decreases s.len(),
{
    if byte_len(s) <= k {
        s.len()
    } else {
        char_floor(s.drop_last(), k)
    }
}

/// Display position (column, row) of byte offset `k` of `text`: the row is
/// the number of newlines before it, the column the width of its row up to it.
pub open spec fn coords_of(text: Seq<char>, k: nat) -> (nat, nat) {
    let pre = text.take(char_floor(text, k) as int);
    (str_width(lines_of(pre).last()), newlines(pre))
}

/// Appends the characters of `v` to `out`.
fn append_chars(out: &mut Vec<char>, v: &Vec<char>)
    ensures
        final(out)@ == old(out)@ + v@,
{
    let mut j: usize = 0;
    while j < v.len()
        invariant
            j <= v@.len(),
            out@ == old(out)@ + v@.take(j as int),
        decreases v.len() - j,
    {
        out.push(v[j]);
        j = j + 1;
        proof {
            assert(out@ =~= old(out)@ + v@.take(j as int));
        }
    }
    assert(v@.take(j as int) =~= v@);
}

/// Whether `needle` occurs at character `i` of `s`.
pub fn matches_here(s: &Vec<char>, needle: &Vec<char>, i: usize) -> (r: bool)
    requires
        i <= s@.len(),
    ensures
        r == matches_at(s@, needle@, i as int),
{
    let n = s.len();
    if needle.len() > n - i {
        return false;
    }
    let mut j: usize = 0;
    while j < needle.len()
        invariant
            n == s@.len(),
            i + needle@.len() <= s@.len(),
            j <= needle@.len(),
            forall|q: int| 0 <= q < j ==> s@[i + q] == needle@[q],
        decreases needle.len() - j,
    {
        if s[i + j] != needle[j] {
            assert(s@.subrange(i as int, i + needle@.len())[j as int] != needle@[j as int]);
            return false;
        }
        j = j + 1;
    }
    assert(s@.subrange(i as int, i + needle@.len()) =~= needle@);
    true
}

proof fn lemma_byte_len_step(s: Seq<char>, i: int)
    requires
        0 <= i < s.len(),
    ensures
        byte_len(s.take(i + 1)) == byte_len(s.take(i)) + char_len_spec(s[i]),
        byte_len(s.take(i + 1)) <= byte_len(s),
{
    assert(s.take(i + 1).drop_last() =~= s.take(i));
    lemma_byte_len_prefix(s, i + 1);
}

/// Byte offsets in `contents` of every occurrence of `text`, in order. After
/// each occurrence the search goes on one character further, so occurrences
/// that overlap are all counted.
pub fn get_indices(contents: &String, text: &String) -> (r: Vec<usize>)
    ensures
        r@.len() == occurrences_from(contents@, text@, 0).len(),
        forall|q: int| 0 <= q < r@.len() ==> r@[q] as nat == occurrences_from(contents@, text@, 0)[q],
{
    let s = chars_of(contents.as_str());
    let needle = chars_of(text.as_str());
    proof {
        lemma_len_le_byte_len(s@);
    }
    let mut res_vec: Vec<usize> = Vec::new();
    let mut i: usize = 0;
    let mut b: usize = 0;
    while i <= s.len()
        invariant
            s@ == contents@,
            needle@ == text@,
            s@.len() <= isize::MAX,
            byte_len(s@) <= isize::MAX,
            i <= s@.len() + 1,
            i <= s@.len() ==> b as nat == byte_len(s@.take(i as int)),
            res_vec@.map_values(|v: usize| v as nat) + occurrences_from(s@, needle@, i as int)
                == occurrences_from(s@, needle@, 0),
        decreases s@.len() + 1 - i,
    {
        let ghost before = res_vec@;
        if matches_here(&s, &needle, i) {
            res_vec.push(b);
            proof {
                assert(res_vec@.map_values(|v: usize| v as nat) =~= before.map_values(
                    |v: usize| v as nat,
                ).push(b as nat));
                assert(before.map_values(|v: usize| v as nat).push(b as nat) + occurrences_from(
                    s@,
                    needle@,
                    i + 1,
                ) =~= before.map_values(|v: usize| v as nat) + occurrences_from(
                    s@,
                    needle@,
                    i as int,
                ));
            }
        }
        if i < s.len() {
            proof {
                lemma_byte_len_step(s@, i as int);
            }
            b = b + char_len(s[i]);
        }
        i = i + 1;
    }
    proof {
        assert(res_vec@.map_values(|v: usize| v as nat) =~= occurrences_from(s@, needle@, 0));
        assert forall|q: int| 0 <= q < res_vec@.len() implies res_vec@[q] as nat
            == occurrences_from(contents@, text@, 0)[q] by {
            assert(res_vec@.map_values(|v: usize| v as nat)[q] == res_vec@[q] as nat);
        }
    }
    res_vec
}

/// Number of occurrences of `text` in `contents`, as std's `matches` counts
/// them: each search goes on after the end of the occurrence found.
pub fn count_matches(contents: &String, text: &String) -> (r: usize)
    ensures
        r as nat == count_from(contents@, text@, 0),
{
    let s = chars_of(contents.as_str());
    let needle = chars_of(text.as_str());
    proof {
        lemma_len_le_byte_len(s@);
    }
    let mut count: usize = 0;
    let mut i: usize = 0;
    while i <= s.len()
        invariant
            s@ == contents@,
            needle@ == text@,
            s@.len() <= isize::MAX,
            count <= i,
            count + count_from(s@, needle@, i as int) == count_from(s@, needle@, 0),
        decreases s@.len() + 1 - i,
    {
        if matches_here(&s, &needle, i) {
            count = count + 1;
            i = i + if needle.len() == 0 {
                1
            } else {
                needle.len()
            };
        } else {
            i = i + 1;
        }
    }
    count
}

/// `contents` with every occurrence of `from` replaced by `to`, as std's
/// `replace` does it.
pub fn replace_all(contents: &String, from: &String, to: &String) -> (r: String)
    ensures
        r@ == replaced(contents@, from@, to@),
{
    let s = chars_of(contents.as_str());
    let pat = chars_of(from.as_str());
    let rep = chars_of(to.as_str());
    let mut out: Vec<char> = Vec::new();
    let mut i: usize = 0;
    assert(s@.skip(0) =~= s@);
    while i < s.len()
        invariant
            s@ == contents@,
            pat@ == from@,
            rep@ == to@,
            i <= s@.len(),
            out@ + replaced(s@.skip(i as int), pat@, rep@) == replaced(s@, pat@, rep@),
        decreases s@.len() - i,
    {
        let ghost rest = s@.skip(i as int);
        let ghost before = out@;
        if pat.len() == 0 {
            append_chars(&mut out, &rep);
            out.push(s[i]);
            proof {
                assert(rest.skip(1) =~= s@.skip(i + 1));
                assert(rest[0] == s@[i as int]);
                assert(out@ + replaced(s@.skip(i + 1), pat@, rep@) =~= before + replaced(
                    rest,
                    pat@,
                    rep@,
                ));
            }
            i = i + 1;
        } else if pat.len() <= s.len() - i && matches_here(&s, &pat, i) {
            append_chars(&mut out, &rep);
            proof {
                assert(rest.take(pat@.len() as int) =~= s@.subrange(i as int, i + pat@.len()));
                assert(rest.skip(pat@.len() as int) =~= s@.skip(i + pat@.len()));
                assert(out@ + replaced(s@.skip(i + pat@.len()), pat@, rep@) =~= before
                    + replaced(rest, pat@, rep@));
            }
            i = i + pat.len();
        } else {
            out.push(s[i]);
            proof {
                assert(rest.skip(1) =~= s@.skip(i + 1));
                assert(rest[0] == s@[i as int]);
                if rest.len() >= pat@.len() {
                    assert(rest.take(pat@.len() as int) =~= s@.subrange(i as int, i + pat@.len()));
                    assert(replaced(rest, pat@, rep@) == seq![rest[0]] + replaced(
                        rest.skip(1),
                        pat@,
                        rep@,
                    ));
                } else {
                    assert(rest =~= seq![rest[0]] + rest.skip(1));
                }
                assert(out@ + replaced(s@.skip(i + 1), pat@, rep@) =~= before + replaced(
                    rest,
                    pat@,
                    rep@,
                ));
            }
            i = i + 1;
        }
    }
    proof {
        assert(s@.skip(i as int) =~= Seq::<char>::empty());
    }
    if pat.len() == 0 {
        append_chars(&mut out, &rep);
        proof {
            assert(out@ =~= replaced(s@, pat@, rep@));
        }
    } else {
        proof {
            assert(out@ =~= replaced(s@, pat@, rep@));
        }
    }
    string_of(out.as_slice())
}

proof fn lemma_char_floor_at(s: Seq<char>, k: nat, i: int)
    requires
        0 <= i <= s.len(),
        byte_len(s.take(i)) <= k,
        i == s.len() || byte_len(s.take(i + 1)) > k,
    ensures
        char_floor(s, k) == i,
    decreases s.len(),
{
    if s.len() > i {
        lemma_byte_len_prefix(s, i + 1);
        assert(s.drop_last().take(i) =~= s.take(i));
        if i + 1 <= s.len() - 1 {
            assert(s.drop_last().take(i + 1) =~= s.take(i + 1));
        }
        lemma_char_floor_at(s.drop_last(), k, i);
    } else {
        assert(s.take(i) =~= s);
    }
}

/// Display position (column, row) of byte offset `position` of `contents`:
/// the row holding it, and the width of that row up to it. An offset inside
/// a character, or past the end, counts as the boundary before it.
pub fn get_newx_newy(contents: &String, position: usize) -> (r: (usize, usize))
    ensures
        (r.0 as nat, r.1 as nat) == coords_of(contents@, position as nat),
{
    let s = chars_of(contents.as_str());
    proof {
        lemma_len_le_byte_len(s@);
    }
    let mut row: Vec<char> = Vec::new();
    let mut y: usize = 0;
    let mut b: usize = 0;
    let mut i: usize = 0;
    proof {
        assert(s@.take(0) =~= Seq::<char>::empty());
    }
    while i < s.len() && char_len(s[i]) <= position - b
        invariant
            s@ == contents@,
            byte_len(s@) <= isize::MAX,
            s@.len() <= isize::MAX,
            i <= s@.len(),
            b as nat == byte_len(s@.take(i as int)),
            b <= position,
            row@ == lines_of(s@.take(i as int)).last(),
            y as nat == newlines(s@.take(i as int)),
            y <= i,
        decreases s@.len() - i,
    {
        let c = s[i];
        proof {
            lemma_byte_len_step(s@, i as int);
            assert(s@.take(i + 1).drop_last() =~= s@.take(i as int));
            lemma_lines_shape(s@.take(i as int));
        }
        b = b + char_len(c);
        if c == '\n' {
            row = Vec::new();
            y = y + 1;
        } else {
            row.push(c);
        }
        i = i + 1;
    }
    proof {
        if i < s@.len() {
            lemma_byte_len_step(s@, i as int);
        }
        lemma_char_floor_at(s@, position as nat, i as int);
    }
    let x = display_width(string_of(row.as_slice()).as_str());
    (x, y)
}

/// The display position of each byte offset in `list`.
pub fn get_xs_and_ys(list: Vec<usize>, contents: &String) -> (r: Vec<(usize, usize)>)
    ensures
        r@.len() == list@.len(),
        forall|q: int|
            0 <= q < r@.len() ==> ((#[trigger] r@[q]).0 as nat, r@[q].1 as nat) == coords_of(
                contents@,
                list@[q] as nat,
            ),
{
    let mut res_vec: Vec<(usize, usize)> = Vec::new();
    let mut q: usize = 0;
    while q < list.len()
        invariant
            q <= list@.len(),
            res_vec@.len() == q,
            forall|j: int|
                0 <= j < q ==> ((#[trigger] res_vec@[j]).0 as nat, res_vec@[j].1 as nat)
                    == coords_of(contents@, list@[j] as nat),
        decreases list.len() - q,
    {
        res_vec.push(get_newx_newy(contents, list[q]));
        q = q + 1;
    }
    res_vec
}

/// Display position of the first occurrence of `text` in the page, or two
/// `None` when there is none.
pub fn find_text(disp: &Page, text: &String) -> (r: (Option<usize>, Option<usize>))
    ensures
        ({
            let occ = occurrences_from(disp.contents@, text@, 0);
            if occ.len() == 0 {
                r == (None::<usize>, None::<usize>)
            } else {
                &&& r.0 is Some
                &&& r.1 is Some
                &&& (r.0->0 as nat, r.1->0 as nat) == coords_of(disp.contents@, occ[0])
            }
        }),
{
    let indices = get_indices(&disp.contents, text);
    if indices.len() == 0 {
        (None, None)
    } else {
        let (x, y) = get_newx_newy(&disp.contents, indices[0]);
        (Some(x), Some(y))
    }
}

} // verus!
