use vstd::prelude::*;
use vstd::utf8::{char_is_scalar, encode_scalar, encode_utf8};

verus! {

/// Number of bytes in the UTF-8 encoding of `c`.
pub open spec fn char_len_spec(c: char) -> nat {
    if (c as u32) < 0x80 {
        1
    } else if (c as u32) < 0x800 {
        2
    } else if (c as u32) < 0x10000 {
        3
    } else {
        4
    }
}

/// Number of bytes in the UTF-8 encoding of `s`.
pub open spec fn byte_len(s: Seq<char>) -> nat
    decreases s.len(),
{
    if s.len() == 0 {
        0
    } else {
        byte_len(s.drop_last()) + char_len_spec(s.last())
    }
}

/// Number of newline characters in `s`.
pub open spec fn newlines(s: Seq<char>) -> nat
    decreases s.len(),
{
    if s.len() == 0 {
        0
    } else {
        newlines(s.drop_last()) + if s.last() == '\n' {
            1nat
        } else {
            0nat
        }
    }
}

/// The rows of `s`: it is cut after every newline, and each newline stays at
/// the end of the row it closes. The last row holds no newline and may be
/// empty, so an empty text has one empty row.
pub open spec fn lines_of(s: Seq<char>) -> Seq<Seq<char>>
    decreases s.len(),
{
    if s.len() == 0 {
        seq![Seq::<char>::empty()]
    } else {
        let prev = lines_of(s.drop_last());
        let c = s.last();
        let grown = prev.update(prev.len() - 1, prev.last().push(c));
        if c == '\n' {
            grown.push(Seq::<char>::empty())
        } else {
            grown
        }
    }
}

/// The rows laid end to end.
pub open spec fn join_lines(ls: Seq<Seq<char>>) -> Seq<char>
    decreases ls.len(),
{
    if ls.len() == 0 {
        Seq::<char>::empty()
    } else {
        join_lines(ls.drop_last()) + ls.last()
    }
}

/// Total number of bytes over all rows.
pub open spec fn lines_bytes(ls: Seq<Seq<char>>) -> nat
    decreases ls.len(),
{
    if ls.len() == 0 {
        0
    } else {
        lines_bytes(ls.drop_last()) + byte_len(ls.last())
    }
}

/// Sum of a sequence of counts.
pub open spec fn sum_of(s: Seq<usize>) -> nat
    decreases s.len(),
{
    if s.len() == 0 {
        0
    } else {
        sum_of(s.drop_last()) + s.last() as nat
    }
}

/// A row without the newline that may close it.
pub open spec fn strip_newline(s: Seq<char>) -> Seq<char> {
    if s.len() > 0 && s.last() == '\n' {
        s.drop_last()
    } else {
        s
    }
}

pub proof fn lemma_byte_len_append(a: Seq<char>, b: Seq<char>)
    ensures
        byte_len(a + b) == byte_len(a) + byte_len(b),
    decreases b.len(),
{
    if b.len() > 0 {
        assert((a + b).drop_last() =~= a + b.drop_last());
        lemma_byte_len_append(a, b.drop_last());
    } else {
        assert(a + b =~= a);
    }
}

pub proof fn lemma_newlines_append(a: Seq<char>, b: Seq<char>)
    ensures
        newlines(a + b) == newlines(a) + newlines(b),
    decreases b.len(),
{
    if b.len() > 0 {
        assert((a + b).drop_last() =~= a + b.drop_last());
        lemma_newlines_append(a, b.drop_last());
    } else {
        assert(a + b =~= a);
    }
}

/// The shape of the rows: there is at least one, every row but the last ends
/// with its only newline, the last holds none, and together they give back
/// the text.
pub proof fn lemma_lines_shape(s: Seq<char>)
    ensures
        lines_of(s).len() >= 1,
        lines_of(s).len() == newlines(s) + 1,
        join_lines(lines_of(s)) == s,
        lines_bytes(lines_of(s)) == byte_len(s),
        forall|i: int|
            0 <= i < lines_of(s).len() - 1 ==> {
                let l = #[trigger] lines_of(s)[i];
                &&& l.len() > 0
                &&& l.last() == '\n'
                &&& newlines(l) == 1
            },
        newlines(lines_of(s).last()) == 0,
    decreases s.len(),
{
    if s.len() > 0 {
        let t = s.drop_last();
        let c = s.last();
        lemma_lines_shape(t);
        let prev = lines_of(t);
        let n = prev.len();
        let last = prev.last().push(c);
        let grown = prev.update(n - 1, last);
        assert(grown.drop_last() =~= prev.drop_last());
        assert(join_lines(prev) == join_lines(prev.drop_last()) + prev.last());
        assert(join_lines(grown) =~= join_lines(prev) + seq![c]) by {
            assert(join_lines(grown) == join_lines(grown.drop_last()) + grown.last());
        }
        assert(s =~= t + seq![c]);
        assert(newlines(last) == newlines(prev.last()) + if c == '\n' {
            1nat
        } else {
            0nat
        }) by {
            assert(last.drop_last() =~= prev.last());
        }
        assert(byte_len(last) == byte_len(prev.last()) + char_len_spec(c)) by {
            assert(last.drop_last() =~= prev.last());
        }
        assert(lines_bytes(grown) == lines_bytes(prev) + char_len_spec(c));
        if c == '\n' {
            let pushed = grown.push(Seq::<char>::empty());
            assert(pushed.drop_last() =~= grown);
            assert(join_lines(pushed) =~= join_lines(grown)) by {
                assert(join_lines(pushed) == join_lines(pushed.drop_last()) + pushed.last());
            }
            assert(lines_bytes(pushed) == lines_bytes(grown));
            assert(newlines(Seq::<char>::empty()) == 0);
            assert forall|i: int| 0 <= i < pushed.len() - 1 implies {
                let l = #[trigger] pushed[i];
                &&& l.len() > 0
                &&& l.last() == '\n'
                &&& newlines(l) == 1
            } by {
                if i < n - 1 {
                    assert(pushed[i] == prev[i]);
                } else {
                    assert(pushed[i] == last);
                }
            }
        } else {
            assert forall|i: int| 0 <= i < grown.len() - 1 implies {
                let l = #[trigger] grown[i];
                &&& l.len() > 0
                &&& l.last() == '\n'
                &&& newlines(l) == 1
            } by {
                assert(grown[i] == prev[i]);
            }
        }
    } else {
        let ls = lines_of(s);
        assert(ls.drop_last() =~= Seq::<Seq<char>>::empty());
        assert(join_lines(ls.drop_last()) == Seq::<char>::empty());
        assert(lines_bytes(ls.drop_last()) == 0);
        assert(byte_len(ls.last()) == 0);
        assert(join_lines(ls) == join_lines(ls.drop_last()) + ls.last());
        assert(join_lines(ls) =~= s);
    }
}

/// Summing counts that match the rows' byte lengths gives the bytes of all rows.
pub proof fn lemma_sum_matches_lines(counts: Seq<usize>, ls: Seq<Seq<char>>)
    requires
        counts.len() == ls.len(),
        forall|i: int| 0 <= i < ls.len() ==> counts[i] as nat == byte_len(#[trigger] ls[i]),
    ensures
        sum_of(counts) == lines_bytes(ls),
    decreases ls.len(),
{
    if ls.len() > 0 {
        lemma_sum_matches_lines(counts.drop_last(), ls.drop_last());
    }
}

pub proof fn lemma_join_append(a: Seq<Seq<char>>, b: Seq<Seq<char>>)
    ensures
        join_lines(a + b) == join_lines(a) + join_lines(b),
    decreases b.len(),
{
    if b.len() > 0 {
        assert((a + b).drop_last() =~= a + b.drop_last());
        lemma_join_append(a, b.drop_last());
        assert(join_lines(a + b) == join_lines((a + b).drop_last()) + (a + b).last());
        assert(join_lines(b) == join_lines(b.drop_last()) + b.last());
        assert(join_lines(a + b) =~= join_lines(a) + join_lines(b));
    } else {
        assert(a + b =~= a);
        assert(join_lines(a) + join_lines(b) =~= join_lines(a));
    }
}

/// Where row `y` sits in the text that its rows make up.
pub proof fn lemma_row_in_text(ls: Seq<Seq<char>>, y: int)
    requires
        0 <= y < ls.len(),
    ensures
        join_lines(ls.take(y + 1)) == join_lines(ls.take(y)) + ls[y],
        join_lines(ls) == join_lines(ls.take(y)) + ls[y] + join_lines(ls.skip(y + 1)),
        join_lines(ls.take(y)).len() + ls[y].len() <= join_lines(ls).len(),
{
    assert(ls.take(y + 1).drop_last() =~= ls.take(y));
    assert(ls =~= ls.take(y + 1) + ls.skip(y + 1));
    lemma_join_append(ls.take(y + 1), ls.skip(y + 1));
}

/// A text has no fewer bytes than characters.
pub proof fn lemma_len_le_byte_len(s: Seq<char>)
    ensures
        s.len() <= byte_len(s),
    decreases s.len(),
{
    if s.len() > 0 {
        lemma_len_le_byte_len(s.drop_last());
    }
}

/// The byte count agrees with the length of the UTF-8 encoding, which is
/// what `str::len` gives.
pub proof fn lemma_byte_len_is_encoding_len(s: Seq<char>)
    ensures
        byte_len(s) == encode_utf8(s).len(),
    decreases s.len(),
{
    if s.len() > 0 {
        lemma_byte_len_is_encoding_len(s.drop_first());
        let c = s[0];
        assert(seq![c] + s.drop_first() =~= s);
        lemma_byte_len_append(seq![c], s.drop_first());
        assert(seq![c].drop_last() =~= Seq::<char>::empty());
        assert(seq![c].last() == c);
        assert(byte_len(Seq::<char>::empty()) == 0);
        assert(byte_len(seq![c]) == byte_len(seq![c].drop_last()) + char_len_spec(seq![c].last()));
        assert(byte_len(seq![c]) == char_len_spec(c));
        char_is_scalar(c);
        assert(encode_scalar(c as u32).len() == char_len_spec(c));
    }
}

/// A prefix has no more bytes than the whole.
pub proof fn lemma_byte_len_prefix(s: Seq<char>, k: int)
    requires
        0 <= k <= s.len(),
    ensures
        byte_len(s.take(k)) <= byte_len(s),
{
    lemma_byte_len_append(s.take(k), s.skip(k));
    assert(s.take(k) + s.skip(k) =~= s);
}

pub proof fn lemma_newlines_single(c: char)
    ensures
        newlines(seq![c]) == if c == '\n' {
            1nat
        } else {
            0nat
        },
{
    assert(seq![c].drop_last() =~= Seq::<char>::empty());
    assert(seq![c].last() == c);
    assert(newlines(Seq::<char>::empty()) == 0);
}

/// Inserting a character adds a row exactly when it is a newline.
pub proof fn lemma_newlines_insert(s: Seq<char>, p: int, c: char)
    requires
        0 <= p <= s.len(),
    ensures
        newlines(s.insert(p, c)) == newlines(s) + if c == '\n' {
            1nat
        } else {
            0nat
        },
{
    assert(s.insert(p, c) =~= s.take(p) + seq![c] + s.skip(p));
    assert(s =~= s.take(p) + s.skip(p));
    lemma_newlines_append(s.take(p) + seq![c], s.skip(p));
    lemma_newlines_append(s.take(p), seq![c]);
    lemma_newlines_append(s.take(p), s.skip(p));
    lemma_newlines_single(c);
}

/// Removing a character takes a row away exactly when it is a newline.
pub proof fn lemma_newlines_remove(s: Seq<char>, q: int)
    requires
        0 <= q < s.len(),
    ensures
        newlines(s.remove(q)) + (if s[q] == '\n' {
            1nat
        } else {
            0nat
        }) == newlines(s),
{
    assert(s.remove(q) =~= s.take(q) + s.skip(q + 1));
    assert(s =~= s.take(q) + seq![s[q]] + s.skip(q + 1));
    lemma_newlines_append(s.take(q) + seq![s[q]], s.skip(q + 1));
    lemma_newlines_append(s.take(q), seq![s[q]]);
    lemma_newlines_append(s.take(q), s.skip(q + 1));
    lemma_newlines_single(s[q]);
}

/// A text without newlines holds no newline at any place.
pub proof fn lemma_no_newlines(s: Seq<char>)
    requires
        newlines(s) == 0,
    ensures
        forall|j: int| 0 <= j < s.len() ==> s[j] != '\n',
    decreases s.len(),
{
    if s.len() > 0 {
        lemma_no_newlines(s.drop_last());
        assert forall|j: int| 0 <= j < s.len() implies s[j] != '\n' by {
            if j < s.len() - 1 {
                assert(s[j] == s.drop_last()[j]);
            }
        }
    }
}

/// The only newline of a row is its last character.
pub proof fn lemma_row_newline_last(s: Seq<char>, y: int)
    requires
        0 <= y < lines_of(s).len(),
    ensures
        forall|j: int|
            0 <= j < lines_of(s)[y].len() && lines_of(s)[y][j] == '\n' ==> y < lines_of(s).len()
                - 1 && j == lines_of(s)[y].len() - 1,
{
    lemma_lines_shape(s);
    let l = lines_of(s)[y];
    if y < lines_of(s).len() - 1 {
        let d = l.drop_last();
        assert(l =~= d.push('\n'));
        assert(d.push('\n').drop_last() =~= d);
        lemma_no_newlines(d);
        assert forall|j: int| 0 <= j < l.len() && l[j] == '\n' implies j == l.len() - 1 by {
            if j < l.len() - 1 {
                assert(l[j] == d[j]);
            }
        }
    } else {
        lemma_no_newlines(l);
    }
}

/// Bytes in the UTF-8 encoding of `c`.
pub fn char_len(c: char) -> (r: usize)
    ensures
        r as nat == char_len_spec(c),
        1 <= r <= 4,
{
    let u = c as u32;
    if u < 0x80 {
        1
    } else if u < 0x800 {
        2
    } else if u < 0x10000 {
        3
    } else {
        4
    }
}

/// Relies on `str::chars` collected into a `Vec`: the characters of `s` in
/// order. A string's bytes fit in `isize`, which std guarantees of every
/// allocation.
#[verifier::external_body]
pub fn chars_of(s: &str) -> (r: Vec<char>)
    ensures
        r@ == s@,
        byte_len(r@) <= isize::MAX as nat,
{
    s.chars().collect()
}

/// Relies on collecting characters into a `String`: the string holds them in order.
#[verifier::external_body]
pub fn string_of(v: &[char]) -> (r: String)
    ensures
        r@ == v@,
{
    v.iter().collect()
}

/// Number of UTF-8 bytes of a sequence of characters.
pub fn bytes_of(v: &Vec<char>) -> (r: usize)
    requires
        byte_len(v@) <= usize::MAX,
    ensures
        r as nat == byte_len(v@),
{
    let mut total: usize = 0;
    let mut i: usize = 0;
    while i < v.len()
        invariant
            i <= v.len(),
            total as nat == byte_len(v@.take(i as int)),
            byte_len(v@) <= usize::MAX,
        decreases v.len() - i,
    {
        proof {
            assert(v@.take(i + 1).drop_last() =~= v@.take(i as int));
            lemma_byte_len_append(v@.take(i + 1), v@.skip(i + 1));
            assert(v@.take(i + 1) + v@.skip(i + 1) =~= v@);
        }
        total = total + char_len(v[i]);
        i = i + 1;
    }
    assert(v@.take(v.len() as int) =~= v@);
    total
}

} // verus!
